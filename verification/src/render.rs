//! How the terminal view paints its cells: the colours and text attributes of every
//! displayed cell, from the cell's own rendition, the selection, search matches, the
//! hovered URL and the cursor.
use vstd::prelude::*;
use crate::grid::{Cell, CellAttrs, CellView, LinkView, Rgb, cells_view};
use crate::text::{chars_equal, chars_of};
use crate::grid::{Grid, GridModel};
use crate::select::{display_row, get_display_row, shown_back};
use crate::view::{compute_url_highlight, in_selection, selected, url_highlight};

verus! {

/// A colour of the view: an RGB colour, or one of the fixed colours of search results
/// (a translucent amber behind every match, an opaque amber behind the current match,
/// and a near-black text colour on it).
#[derive(Clone, Copy, Debug, PartialEq, Eq, Structural)]
pub enum Paint {
    Color(Rgb),
    SearchMatch,
    SearchCurrent,
    SearchCurrentText,
}

/// The colours of the theme that cells are painted with.
#[derive(Clone, Copy, Debug, PartialEq, Eq, Structural)]
pub struct Theme {
    pub foreground: Rgb,
    pub background: Rgb,
    pub accent: Rgb,
    pub cursor: Rgb,
}

/// How one cell is painted: its text colour and background (either at half opacity when
/// dimmed), and its text attributes.
#[derive(Clone, Copy, Debug, PartialEq, Eq, Structural)]
pub struct SpanStyle {
    pub fg: Paint,
    pub fg_dim: bool,
    pub bg: Option<Paint>,
    pub bg_dim: bool,
    pub bold: bool,
    pub italic: bool,
    pub underline: bool,
    pub strikethrough: bool,
}

pub open spec fn has(attrs: u8, flag: u8) -> bool {
    attrs & flag == flag
}

/// A background light enough to pass for a selection: each channel above 0.85.
pub open spec fn light(p: Paint) -> bool {
    match p {
        Paint::Color(c) => c.r >= 217 && c.g >= 217 && c.b >= 217,
        _ => false,
    }
}

/// A text colour dark enough to pass for selected text: each channel below 0.3.
pub open spec fn dark(p: Paint) -> bool {
    match p {
        Paint::Color(c) => c.r <= 76 && c.g <= 76 && c.b <= 76,
        Paint::SearchCurrentText => true,
        _ => false,
    }
}

/// The paint of one cell from its text colour, background and attributes. Dim text is
/// drawn at half opacity (in the theme's text colour when it has none). Reverse video
/// swaps the colours, using the theme's background for missing ones and the accent
/// behind a cell without colours of its own. Otherwise a light background behind dark
/// text is drawn in the accent colour, as a selection is.
pub open spec fn cell_style(fg: Option<Paint>, bg: Option<Paint>, attrs: u8, theme: Theme) -> SpanStyle {
    let dim = has(attrs, CellAttrs::DIM);
    let text: (Paint, bool) = match fg {
        Some(c) => (c, dim),
        None => (Paint::Color(theme.foreground), dim),
    };
    let base = SpanStyle {
        fg: text.0,
        fg_dim: text.1,
        bg: None,
        bg_dim: false,
        bold: has(attrs, CellAttrs::BOLD),
        italic: has(attrs, CellAttrs::ITALIC),
        underline: has(attrs, CellAttrs::UNDERLINE),
        strikethrough: has(attrs, CellAttrs::STRIKETHROUGH),
    };
    if has(attrs, CellAttrs::REVERSE) {
        let back: (Paint, bool) = if fg is None && bg is None { (Paint::Color(theme.accent), false) } else { text };
        SpanStyle {
            fg: match bg { Some(b) => b, None => Paint::Color(theme.background) },
            fg_dim: false,
            bg: Some(back.0),
            bg_dim: back.1,
            ..base
        }
    } else {
        SpanStyle {
            bg: match bg {
                Some(b) => Some(if light(b) && dark(text.0) { Paint::Color(theme.accent) } else { b }),
                None => None,
            },
            ..base
        }
    }
}

fn light_exec(p: Paint) -> (r: bool)
    ensures
        r == light(p),
{
    match p {
        Paint::Color(c) => c.r >= 217 && c.g >= 217 && c.b >= 217,
        _ => false,
    }
}

fn dark_exec(p: Paint) -> (r: bool)
    ensures
        r == dark(p),
{
    match p {
        Paint::Color(c) => c.r <= 76 && c.g <= 76 && c.b <= 76,
        Paint::SearchCurrentText => true,
        _ => false,
    }
}

fn has_exec(attrs: u8, flag: u8) -> (r: bool)
    ensures
        r == has(attrs, flag),
{
    attrs & flag == flag
}

/// The paint of one cell (see [`cell_style`]).
pub fn style_cell(fg: Option<Paint>, bg: Option<Paint>, attrs: u8, theme: Theme) -> (s: SpanStyle)
    ensures
        s == cell_style(fg, bg, attrs, theme),
{
    let dim = has_exec(attrs, CellAttrs::DIM);
    let text: (Paint, bool) = match fg {
        Some(c) => (c, dim),
        None => (Paint::Color(theme.foreground), dim),
    };
    let base = SpanStyle {
        fg: text.0,
        fg_dim: text.1,
        bg: None,
        bg_dim: false,
        bold: has_exec(attrs, CellAttrs::BOLD),
        italic: has_exec(attrs, CellAttrs::ITALIC),
        underline: has_exec(attrs, CellAttrs::UNDERLINE),
        strikethrough: has_exec(attrs, CellAttrs::STRIKETHROUGH),
    };
    if has_exec(attrs, CellAttrs::REVERSE) {
        let back: (Paint, bool) = if fg.is_none() && bg.is_none() { (Paint::Color(theme.accent), false) } else { text };
        SpanStyle {
            fg: match bg {
                Some(b) => b,
                None => Paint::Color(theme.background),
            },
            fg_dim: false,
            bg: Some(back.0),
            bg_dim: back.1,
            ..base
        }
    } else {
        let shown = match bg {
            Some(b) => Some(if light_exec(b) && dark_exec(text.0) { Paint::Color(theme.accent) } else { b }),
            None => None,
        };
        SpanStyle { bg: shown, ..base }
    }
}


pub open spec fn opt_paint(c: Option<Rgb>) -> Option<Paint> {
    match c {
        Some(x) => Some(Paint::Color(x)),
        None => None,
    }
}

/// A flag of a per-column list, false past its end.
pub open spec fn flag_at(v: Seq<bool>, x: int) -> bool {
    0 <= x < v.len() && v[x]
}

pub open spec fn sel_view(sel: Option<(usize, usize, usize, usize)>) -> Option<(nat, nat, nat, nat)> {
    match sel {
        Some((a, b, c, d)) => Some((a as nat, b as nat, c as nat, d as nat)),
        None => None,
    }
}

pub open spec fn links_to(l: Option<LinkView>, u: Seq<char>) -> bool {
    match l {
        Some(k) => k.uri == u,
        None => false,
    }
}

/// The paint of cell `x` of display row `y`. A selected cell is drawn in the theme's
/// background on the accent, without attributes; the current search match in dark text
/// on amber, any other match on translucent amber. The hovered URL is underlined, and
/// the cursor cell is drawn underlined in the cursor colour.
pub open spec fn cell_paint(
    cell: CellView,
    x: nat,
    y: nat,
    cursor_col: Option<nat>,
    sel: Option<(nat, nat, nat, nat)>,
    hovered: Option<Seq<char>>,
    url_hl: Seq<bool>,
    search: Option<(Seq<bool>, Seq<bool>)>,
    theme: Theme,
) -> SpanStyle {
    let url_hovered = match hovered {
        Some(h) => links_to(cell.link, h) || flag_at(url_hl, x as int),
        None => false,
    };
    let current = match search {
        Some((_, c)) => flag_at(c, x as int),
        None => false,
    };
    let matched = !current && match search {
        Some((m, _)) => flag_at(m, x as int),
        None => false,
    };
    let base: (Option<Paint>, Option<Paint>, u8) = if selected(x, y, sel) {
        (Some(Paint::Color(theme.background)), Some(Paint::Color(theme.accent)), 0u8)
    } else if current {
        (Some(Paint::SearchCurrentText), Some(Paint::SearchCurrent), 0u8)
    } else if matched {
        (opt_paint(cell.fg), Some(Paint::SearchMatch), cell.attrs)
    } else {
        (opt_paint(cell.fg), opt_paint(cell.bg), cell.attrs)
    };
    let attrs = if url_hovered { base.2 | CellAttrs::UNDERLINE } else { base.2 };
    if cursor_col == Some(x) {
        cell_style(Some(Paint::Color(theme.cursor)), base.1, attrs | CellAttrs::UNDERLINE, theme)
    } else {
        cell_style(base.0, base.1, attrs, theme)
    }
}

fn flag_at_exec(v: &[bool], x: usize) -> (r: bool)
    ensures
        r == flag_at(v@, x as int),
{
    x < v.len() && v[x]
}

fn links_to_exec(cell: &Cell, u: &str) -> (r: bool)
    ensures
        r == links_to(crate::grid::link_opt_view(cell.uri), u@),
{
    match &cell.uri {
        Some(l) => {
            let a = chars_of(l.uri.as_str());
            let b = chars_of(u);
            chars_equal(a.as_slice(), b.as_slice())
        },
        None => false,
    }
}

/// The paint of one cell of a row (see [`cell_paint`]).
pub fn paint_cell(
    cell: &Cell,
    x: usize,
    y: usize,
    cursor_col: Option<usize>,
    selection: Option<(usize, usize, usize, usize)>,
    hovered_url: Option<&str>,
    url_highlight: &[bool],
    search_hl: Option<(&[bool], &[bool])>,
    theme: Theme,
) -> (s: SpanStyle)
    ensures
        s == cell_paint(
            cell@,
            x as nat,
            y as nat,
            match cursor_col { Some(c) => Some(c as nat), None => None },
            sel_view(selection),
            match hovered_url { Some(u) => Some(u@), None => None },
            url_highlight@,
            match search_hl { Some((m, c)) => Some((m@, c@)), None => None },
            theme,
        ),
{
    let url_hovered = match hovered_url {
        Some(h) => links_to_exec(cell, h) || flag_at_exec(url_highlight, x),
        None => false,
    };
    let current = match search_hl {
        Some((_, c)) => flag_at_exec(c, x),
        None => false,
    };
    let matched = !current && match search_hl {
        Some((m, _)) => flag_at_exec(m, x),
        None => false,
    };
    let fg0 = match cell.fg {
        Some(c) => Some(Paint::Color(c)),
        None => None,
    };
    let bg0 = match cell.bg {
        Some(c) => Some(Paint::Color(c)),
        None => None,
    };
    let base: (Option<Paint>, Option<Paint>, u8) = if in_selection(x, y, selection) {
        (Some(Paint::Color(theme.background)), Some(Paint::Color(theme.accent)), 0u8)
    } else if current {
        (Some(Paint::SearchCurrentText), Some(Paint::SearchCurrent), 0u8)
    } else if matched {
        (fg0, Some(Paint::SearchMatch), cell.attrs.bits)
    } else {
        (fg0, bg0, cell.attrs.bits)
    };
    let attrs = if url_hovered { base.2 | CellAttrs::UNDERLINE } else { base.2 };
    let is_cursor = match cursor_col {
        Some(c) => c == x,
        None => false,
    };
    if is_cursor {
        style_cell(Some(Paint::Color(theme.cursor)), base.1, attrs | CellAttrs::UNDERLINE, theme)
    } else {
        style_cell(base.0, base.1, attrs, theme)
    }
}

/// The paint of every cell of a row.
pub open spec fn row_paint(
    cells: Seq<CellView>,
    y: nat,
    cursor_col: Option<nat>,
    sel: Option<(nat, nat, nat, nat)>,
    hovered: Option<Seq<char>>,
    url_hl: Seq<bool>,
    search: Option<(Seq<bool>, Seq<bool>)>,
    theme: Theme,
) -> Seq<SpanStyle> {
    Seq::new(cells.len(), |x: int| cell_paint(cells[x], x as nat, y, cursor_col, sel, hovered, url_hl, search, theme))
}

pub open spec fn styles_of(v: Seq<(String, SpanStyle)>) -> Seq<SpanStyle> {
    v.map_values(|e: (String, SpanStyle)| e.1)
}

pub open spec fn texts_of(v: Seq<(String, SpanStyle)>) -> Seq<Seq<char>> {
    v.map_values(|e: (String, SpanStyle)| e.0@)
}

pub open spec fn cell_texts(v: Seq<CellView>) -> Seq<Seq<char>> {
    v.map_values(|c: CellView| c.text)
}

/// The text and paint of every cell of a row (see [`cell_paint`]).
pub fn paint_row(
    row_cells: &[Cell],
    cursor_col: Option<usize>,
    y: usize,
    selection: Option<(usize, usize, usize, usize)>,
    hovered_url: Option<&str>,
    url_highlight: &[bool],
    search_hl: Option<(&[bool], &[bool])>,
    theme: Theme,
) -> (out: Vec<(String, SpanStyle)>)
    ensures
        texts_of(out@) == cell_texts(cells_view(row_cells@)),
        styles_of(out@) == row_paint(
            cells_view(row_cells@),
            y as nat,
            match cursor_col { Some(c) => Some(c as nat), None => None },
            sel_view(selection),
            match hovered_url { Some(u) => Some(u@), None => None },
            url_highlight@,
            match search_hl { Some((m, c)) => Some((m@, c@)), None => None },
            theme,
        ),
{
    let ghost cv = cells_view(row_cells@);
    let ghost cc = match cursor_col { Some(c) => Some(c as nat), None => None };
    let ghost hv = match hovered_url { Some(u) => Some(u@), None => None };
    let ghost sh = match search_hl { Some((m, c)) => Some((m@, c@)), None => None };
    let mut out: Vec<(String, SpanStyle)> = Vec::new();
    let mut x: usize = 0;
    while x < row_cells.len()
        invariant
            x <= row_cells@.len(),
            cv == cells_view(row_cells@),
            cc == (match cursor_col { Some(c) => Some(c as nat), None => None }),
            hv == (match hovered_url { Some(u) => Some(u@), None => None }),
            sh == (match search_hl { Some((m, c)) => Some((m@, c@)), None => None }),
            out@.len() == x,
            forall|k: int| 0 <= k < x ==> {
                &&& (#[trigger] out@[k]).0@ == cv[k].text
                &&& out@[k].1 == cell_paint(cv[k], k as nat, y as nat, cc, sel_view(selection), hv, url_highlight@, sh, theme)
            },
        decreases row_cells@.len() - x,
    {
        let cell = &row_cells[x];
        let style = paint_cell(cell, x, y, cursor_col, selection, hovered_url, url_highlight, search_hl, theme);
        out.push((cell.c.clone(), style));
        x = x + 1;
    }
    assert(texts_of(out@) =~= cell_texts(cv));
    assert(styles_of(out@) =~= row_paint(cv, y as nat, cc, sel_view(selection), hv, url_highlight@, sh, theme));
    out
}


/// Flags `v` with columns `from..to` also set.
pub open spec fn mark_span(v: Seq<bool>, from: nat, to: nat) -> Seq<bool> {
    Seq::new(v.len(), |c: int| v[c] || (from <= c < to))
}

/// The search flags of a row after the first `j` matches: every column of a match in
/// this row, the columns of the current match, and whether any match lies in the row.
pub open spec fn marks_upto(
    matches: Seq<(bool, usize, usize, usize)>,
    j: nat,
    current: Option<usize>,
    is_sb: bool,
    row: nat,
    cols: nat,
) -> (Seq<bool>, Seq<bool>, bool)
    decreases j,
{
    if j == 0 || j > matches.len() {
        (Seq::new(cols, |c: int| false), Seq::new(cols, |c: int| false), false)
    } else {
        let prev = marks_upto(matches, (j - 1) as nat, current, is_sb, row, cols);
        let m = matches[j - 1];
        if m.0 == is_sb && m.1 == row {
            (
                mark_span(prev.0, m.2 as nat, m.3 as nat),
                if current == Some((j - 1) as usize) { mark_span(prev.1, m.2 as nat, m.3 as nat) } else { prev.1 },
                true,
            )
        } else {
            prev
        }
    }
}

/// The search highlight of a row of `cols` cells: the columns covered by matches in the
/// row and those of the current match, or nothing when no match lies in the row.
pub open spec fn search_marks(
    matches: Seq<(bool, usize, usize, usize)>,
    current: Option<usize>,
    is_sb: bool,
    row: nat,
    cols: nat,
) -> Option<(Seq<bool>, Seq<bool>)> {
    let r = marks_upto(matches, matches.len(), current, is_sb, row, cols);
    if r.2 { Some((r.0, r.1)) } else { None }
}

fn set_span(v: &mut Vec<bool>, from: usize, to: usize)
    ensures
        final(v)@ == mark_span(old(v)@, from as nat, to as nat),
{
    let n = v.len();
    let end = if to < n { to } else { n };
    let mut c = from;
    while c < end
        invariant
            from <= c,
            end <= n,
            n == v@.len(),
            v@.len() == old(v)@.len(),
            forall|k: int| 0 <= k < n ==> #[trigger] v@[k] == (old(v)@[k] || (from <= k < c && k < end)),
        decreases end - c,
    {
        v.set(c, true);
        c = c + 1;
    }
    assert(v@ =~= mark_span(old(v)@, from as nat, to as nat));
}

fn false_flags(n: usize) -> (v: Vec<bool>)
    ensures
        v@ == Seq::new(n as nat, |c: int| false),
{
    let mut v: Vec<bool> = Vec::new();
    let mut i: usize = 0;
    while i < n
        invariant
            i <= n,
            v@ == Seq::new(i as nat, |c: int| false),
        decreases n - i,
    {
        v.push(false);
        i = i + 1;
        assert(v@ =~= Seq::new(i as nat, |c: int| false));
    }
    v
}

/// The search highlight of a row (see [`search_marks`]).
pub fn search_highlight(
    matches: &Vec<(bool, usize, usize, usize)>,
    current: Option<usize>,
    is_sb: bool,
    row: usize,
    cols: usize,
) -> (r: Option<(Vec<bool>, Vec<bool>)>)
    ensures
        match r {
            Some((m, c)) => search_marks(matches@, current, is_sb, row as nat, cols as nat) == Some((m@, c@)),
            None => search_marks(matches@, current, is_sb, row as nat, cols as nat) is None,
        },
{
    let mut is_match = false_flags(cols);
    let mut is_current = false_flags(cols);
    let mut any = false;
    let mut j: usize = 0;
    while j < matches.len()
        invariant
            j <= matches@.len(),
            (is_match@, is_current@, any) == marks_upto(matches@, j as nat, current, is_sb, row as nat, cols as nat),
        decreases matches@.len() - j,
    {
        let m = matches[j];
        if m.0 == is_sb && m.1 == row {
            set_span(&mut is_match, m.2, m.3);
            let is_cur = match current {
                Some(k) => k == j,
                None => false,
            };
            if is_cur {
                set_span(&mut is_current, m.2, m.3);
            }
            any = true;
        }
        j = j + 1;
    }
    if any { Some((is_match, is_current)) } else { None }
}


/// How many rows the view shows: the scrollback rows scrolled into view, then the
/// screen rows that still fit below them.
pub open spec fn shown_count(g: GridModel, off: nat) -> nat {
    let c = shown_back(g, off);
    c + (if g.rows > c { (g.rows - c) as nat } else { 0 })
}

/// The row that display row `d` is searched as: its scrollback index, or its screen row.
pub open spec fn search_row(g: GridModel, off: nat, d: nat) -> nat {
    let c = shown_back(g, off);
    if d < c { (g.scrollback.len() - c + d) as nat } else { (d - c) as nat }
}

/// The cursor column of display row `d`: only on the live screen, when the cursor is
/// visible and on that row.
pub open spec fn cursor_of(g: GridModel, off: nat, d: nat) -> Option<nat> {
    let c = shown_back(g, off);
    if g.cursor_visible && c == 0 && d == g.cursor_y { Some(g.cursor_x) } else { None }
}

/// The paint of display row `d` of the view.
pub open spec fn display_paint(
    g: GridModel,
    off: nat,
    d: nat,
    sel: Option<(nat, nat, nat, nat)>,
    hovered: Option<Seq<char>>,
    span: Option<(nat, nat, nat)>,
    matches: Seq<(bool, usize, usize, usize)>,
    current: Option<usize>,
    theme: Theme,
) -> Seq<SpanStyle> {
    match display_row(g, off, d) {
        Some(cells) => row_paint(
            cells,
            d,
            cursor_of(g, off, d),
            sel,
            hovered,
            url_highlight(cells, d, hovered, span),
            search_marks(matches, current, d < shown_back(g, off), search_row(g, off, d), cells.len()),
            theme,
        ),
        None => Seq::empty(),
    }
}

/// Every row the view shows, with the text and paint of each cell.
pub fn render_rows(
    grid: &Grid,
    selection: Option<(usize, usize, usize, usize)>,
    scroll_offset: usize,
    hovered_url: Option<&str>,
    hovered_link_span: Option<(usize, usize, usize)>,
    matches: &Vec<(bool, usize, usize, usize)>,
    current: Option<usize>,
    theme: Theme,
) -> (out: Vec<Vec<(String, SpanStyle)>>)
    requires
        grid.wf(),
    ensures
        out@.len() == shown_count(grid@, scroll_offset as nat),
        forall|d: int| 0 <= d < out@.len() ==> {
            &&& display_row(grid@, scroll_offset as nat, d as nat) matches Some(cells) && texts_of((#[trigger] out@[d])@) == cell_texts(cells)
            &&& styles_of(out@[d]@) == display_paint(
                grid@,
                scroll_offset as nat,
                d as nat,
                sel_view(selection),
                match hovered_url { Some(u) => Some(u@), None => None },
                match hovered_link_span { Some((a, b, c)) => Some((a as nat, b as nat, c as nat)), None => None },
                matches@,
                current,
                theme,
            )
        },
{
    let ghost g = grid@;
    let ghost hv = match hovered_url { Some(u) => Some(u@), None => None };
    let ghost sp = match hovered_link_span { Some((a, b, c)) => Some((a as nat, b as nat, c as nat)), None => None };
    let sb_len = grid.scrollback.len();
    let clamped = if scroll_offset < sb_len { scroll_offset } else { sb_len };
    let live = if grid.rows > clamped { grid.rows - clamped } else { 0 };
    let total = clamped + live;
    let mut out: Vec<Vec<(String, SpanStyle)>> = Vec::new();
    let mut d: usize = 0;
    while d < total
        invariant
            grid.wf(),
            g == grid@,
            sb_len == g.scrollback.len(),
            clamped == shown_back(g, scroll_offset as nat),
            total == shown_count(g, scroll_offset as nat),
            hv == (match hovered_url { Some(u) => Some(u@), None => None }),
            sp == (match hovered_link_span { Some((a, b, c)) => Some((a as nat, b as nat, c as nat)), None => None }),
            d <= total,
            out@.len() == d,
            forall|k: int| 0 <= k < d ==> {
                &&& display_row(g, scroll_offset as nat, k as nat) matches Some(cells) && texts_of((#[trigger] out@[k])@) == cell_texts(cells)
                &&& styles_of(out@[k]@) == display_paint(g, scroll_offset as nat, k as nat, sel_view(selection), hv, sp, matches@, current, theme)
            },
        decreases total - d,
    {
        let shown = get_display_row(grid, scroll_offset, d);
        assert(shown is Some);
        let cells = shown.unwrap();
        let is_sb = d < clamped;
        let row = if is_sb { sb_len - clamped + d } else { d - clamped };
        let cursor = if grid.cursor_visible && clamped == 0 && d == grid.cursor_y { Some(grid.cursor_x) } else { None };
        let hl = compute_url_highlight(cells, d, hovered_url, hovered_link_span);
        let sh = search_highlight(matches, current, is_sb, row, cells.len());
        let sh_ref: Option<(&[bool], &[bool])> = match &sh {
            Some((m, c)) => Some((m.as_slice(), c.as_slice())),
            None => None,
        };
        let painted = paint_row(cells, cursor, d, selection, hovered_url, hl.as_slice(), sh_ref, theme);
        out.push(painted);
        d = d + 1;
    }
    out
}


/// A selected cell away from the cursor is always drawn in the theme's background
/// colour on the accent, at full opacity, whatever its own rendition.
pub proof fn law_selection_painted(
    cell: CellView,
    x: nat,
    y: nat,
    cursor_col: Option<nat>,
    sel: Option<(nat, nat, nat, nat)>,
    hovered: Option<Seq<char>>,
    url_hl: Seq<bool>,
    search: Option<(Seq<bool>, Seq<bool>)>,
    theme: Theme,
)
    requires
        selected(x, y, sel),
        cursor_col != Some(x),
    ensures
        ({
            let s = cell_paint(cell, x, y, cursor_col, sel, hovered, url_hl, search, theme);
            s.fg == Paint::Color(theme.background) && !s.fg_dim && s.bg == Some(Paint::Color(theme.accent))
        }),
{
    let u: u8 = 0u8 | CellAttrs::UNDERLINE;
    assert(u & CellAttrs::REVERSE != CellAttrs::REVERSE) by (bit_vector)
        requires
            u == 0u8 | 0b0000_1000u8,
    ;
    assert(u & CellAttrs::DIM != CellAttrs::DIM) by (bit_vector)
        requires
            u == 0u8 | 0b0000_1000u8,
    ;
    assert(0u8 & CellAttrs::REVERSE != CellAttrs::REVERSE) by (bit_vector);
    assert(0u8 & CellAttrs::DIM != CellAttrs::DIM) by (bit_vector);
}

} // verus!
