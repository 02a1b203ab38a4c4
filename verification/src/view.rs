//! What the terminal view shows and reports: selection membership, URL highlighting,
//! search matches, and mouse reports sent to the application.
use vstd::prelude::*;
use crate::config::lower_char;
use crate::grid::{cells_view, Cell, CellView, Grid, GridModel};
use crate::text::{decimal, push_decimal};
use crate::url::{detect_urls, is_url_terminator, lead_char, term_end, url_entries_view, urls_from};

verus! {

/// Whether display cell (`x`, `y`) lies in a selection from (`sc`, `sr`) to (`ec`, `er`)
/// in reading order.
pub open spec fn selected(x: nat, y: nat, sel: Option<(nat, nat, nat, nat)>) -> bool {
    match sel {
        None => false,
        Some((sc, sr, ec, er)) => {
            if sr == er {
                y == sr && x >= sc && x <= ec
            } else if y == sr {
                x >= sc
            } else if y == er {
                x <= ec
            } else {
                y > sr && y < er
            }
        },
    }
}

pub fn in_selection(x: usize, y: usize, sel: Option<(usize, usize, usize, usize)>) -> (r: bool)
    ensures
        r == selected(x as nat, y as nat, match sel { Some((a, b, c, d)) => Some((a as nat, b as nat, c as nat, d as nat)), None => None }),
{
    let (sc, sr, ec, er) = match sel {
        Some(s) => s,
        None => return false,
    };
    if sr == er {
        y == sr && x >= sc && x <= ec
    } else if y == sr {
        x >= sc
    } else if y == er {
        x <= ec
    } else {
        y > sr && y < er
    }
}

/// Columns marked by the URL entries whose text is `u` (each up to the row's end).
pub open spec fn marked_by(entries: Seq<(nat, nat, Seq<char>)>, u: Seq<char>, n: nat) -> Seq<bool>
    decreases entries.len(),
{
    if entries.len() == 0 {
        Seq::new(n, |i: int| false)
    } else {
        let m = marked_by(entries.drop_last(), u, n);
        let e = entries.last();
        if e.2 == u {
            Seq::new(n, |i: int| m[i] || (e.0 <= i && i <= e.1 && i <= n - 1))
        } else {
            m
        }
    }
}

/// Which cells of display row `y` belong to the hovered URL: with a known span, the
/// cells from its first column (on its first row) or from the row start (on later rows)
/// up to the first terminator; otherwise every URL of the row with the hovered text.
/// Nothing is highlighted when no URL is hovered.
pub open spec fn url_highlight(cells: Seq<CellView>, y: nat, url: Option<Seq<char>>, span: Option<(nat, nat, nat)>) -> Seq<bool> {
    let n = cells.len();
    match url {
        None => Seq::empty(),
        Some(u) => match span {
            Some((s, c, e)) => {
                let from: Option<nat> = if y == s { Some(c) } else if y > s && y <= e { Some(0) } else { None };
                match from {
                    None => Seq::new(n, |i: int| false),
                    Some(f) => Seq::new(n, |i: int| f <= i && i < term_end(cells, f as int)),
                }
            },
            None => marked_by(urls_from(cells, 0), u, n),
        },
    }
}

/// The highlight of a row (see [`url_highlight`]).
pub fn compute_url_highlight(row_cells: &[Cell], display_y: usize, hovered_url: Option<&str>, hovered_link_span: Option<(usize, usize, usize)>) -> (v: Vec<bool>)
    ensures
        v@ == url_highlight(
            cells_view(row_cells@),
            display_y as nat,
            match hovered_url { Some(u) => Some(u@), None => None },
            match hovered_link_span { Some((a, b, c)) => Some((a as nat, b as nat, c as nat)), None => None },
        ),
{
    let ghost cv = cells_view(row_cells@);
    let url = match hovered_url {
        Some(u) => u,
        None => return Vec::new(),
    };
    let n = row_cells.len();
    let mut v: Vec<bool> = Vec::new();
    let mut k: usize = 0;
    while k < n
        invariant
            k <= n,
            v@ == Seq::new(k as nat, |i: int| false),
        decreases n - k,
    {
        v.push(false);
        k = k + 1;
        assert(v@ =~= Seq::new(k as nat, |i: int| false));
    }
    match hovered_link_span {
        Some((span_start, span_col, span_end)) => {
            let scan_from = if display_y == span_start {
                span_col
            } else if display_y > span_start && display_y <= span_end {
                0
            } else {
                return v;
            };
            let mut i = scan_from;
            proof {
                if scan_from <= n {
                    crate::url::lemma_term_end_bounds(cv, scan_from as int);
                }
            }
            while i < n && !is_url_terminator(crate::url::cell_lead_char(&row_cells[i]))
                invariant
                    n == row_cells@.len(),
                    cv == cells_view(row_cells@),
                    scan_from <= i,
                    v@.len() == n,
                    scan_from <= n ==> (i <= n && term_end(cv, i as int) == term_end(cv, scan_from as int)),
                    forall|j: int| 0 <= j < n ==> #[trigger] v@[j] == (scan_from <= j && j < i),
                decreases n - i,
            {
                assert(cv[i as int] == row_cells@[i as int]@);
                v.set(i, true);
                i = i + 1;
            }
            proof {
                if scan_from <= n {
                    if i < n {
                        assert(cv[i as int] == row_cells@[i as int]@);
                    }
                    assert(term_end(cv, i as int) == i);
                } else {
                    assert(term_end(cv, scan_from as int) == scan_from);
                }
            }
            assert(v@ =~= Seq::new(n as nat, |j: int| scan_from <= j && j < term_end(cv, scan_from as int)));
            v
        },
        None => {
            let entries = detect_urls(row_cells);
            let target = crate::text::chars_of(url);
            let ghost es = url_entries_view(entries@);
            let mut j: usize = 0;
            assert(es.take(0) =~= Seq::<(nat, nat, Seq<char>)>::empty());
            while j < entries.len()
                invariant
                    j <= entries@.len(),
                    es == url_entries_view(entries@),
                    target@ == url@,
                    n == row_cells@.len(),
                    v@.len() == n,
                    v@ == marked_by(es.take(j as int), url@, n as nat),
                decreases entries@.len() - j,
            {
                let (start, end) = (entries[j].0, entries[j].1);
                let text = crate::text::chars_of(entries[j].2.as_str());
                assert(es.take(j + 1).drop_last() =~= es.take(j as int));
                let ghost before = v@;
                if crate::text::chars_equal(text.as_slice(), target.as_slice()) {
                    if n > 0 {
                        let last = if end <= n - 1 { end } else { n - 1 };
                        let mut i = start;
                        while i <= last
                            invariant
                                start <= i,
                                last < n,
                                start <= last + 1 ==> i <= last + 1,
                                start > last + 1 ==> i == start,
                                v@.len() == n,
                                before.len() == n,
                                forall|q: int| 0 <= q < n ==> #[trigger] v@[q] == (before[q] || (start <= q && q < i)),
                            decreases last + 1 - i,
                        {
                            v.set(i, true);
                            i = i + 1;
                        }
                    }
                    assert(es[j as int].2 == url@);
                    assert(es[j as int].0 == start && es[j as int].1 == end);
                    assert(v@ =~= marked_by(es.take(j + 1), url@, n as nat));
                } else {
                    assert(v@ =~= marked_by(es.take(j + 1), url@, n as nat));
                }
                j = j + 1;
            }
            assert(es.take(entries@.len() as int) =~= es);
            v
        },
    }
}


/// The character a cell is searched by: its first character (NUL for an empty cell), in
/// ASCII lower case.
pub open spec fn search_char(c: CellView) -> char {
    lower_char(if c.text.len() > 0 { c.text[0] } else { '\0' })
}

pub open spec fn match_at(cells: Seq<CellView>, q: Seq<char>, start: int) -> bool {
    forall|i: int| 0 <= i < q.len() ==> #[trigger] search_char(cells[start + i]) == q[i]
}

/// The matches of the lowered query `q` in a row, from column `start` on: where it
/// starts, as (scrollback?, row, first column, end column).
pub open spec fn row_matches(cells: Seq<CellView>, q: Seq<char>, is_sb: bool, row: nat, start: nat) -> Seq<(bool, nat, nat, nat)>
    decreases cells.len() + 1 - start,
{
    if q.len() > cells.len() || start + q.len() > cells.len() {
        Seq::empty()
    } else if match_at(cells, q, start as int) {
        seq![(is_sb, row, start, start + q.len())] + row_matches(cells, q, is_sb, row, start + 1)
    } else {
        row_matches(cells, q, is_sb, row, start + 1)
    }
}

/// Matches in the scrollback rows from `r` on, then in the screen rows.
pub open spec fn scrollback_matches(g: GridModel, q: Seq<char>, r: nat) -> Seq<(bool, nat, nat, nat)>
    decreases g.scrollback.len() - r,
{
    if r >= g.scrollback.len() {
        Seq::empty()
    } else {
        row_matches(g.scrollback[r as int].0, q, true, r, 0) + scrollback_matches(g, q, r + 1)
    }
}

pub open spec fn screen_matches(g: GridModel, q: Seq<char>, r: nat) -> Seq<(bool, nat, nat, nat)>
    decreases g.rows - r,
{
    if r >= g.rows {
        Seq::empty()
    } else {
        row_matches(g.screen[r as int], q, false, r, 0) + screen_matches(g, q, r + 1)
    }
}

/// Every occurrence of the query (ignoring ASCII case) in the scrollback and on the
/// screen, in reading order; none for an empty query.
pub open spec fn search_matches(g: GridModel, query: Seq<char>) -> Seq<(bool, nat, nat, nat)> {
    let q = crate::config::ascii_lower(query);
    if q.len() == 0 { Seq::empty() } else { scrollback_matches(g, q, 0) + screen_matches(g, q, 0) }
}

pub open spec fn matches_view(v: Seq<(bool, usize, usize, usize)>) -> Seq<(bool, nat, nat, nat)> {
    v.map_values(|m: (bool, usize, usize, usize)| (m.0, m.1 as nat, m.2 as nat, m.3 as nat))
}

fn cell_search_char(c: &Cell) -> (r: char)
    ensures
        r == search_char(c@),
{
    let t = c.c.as_str();
    let ch = if t.unicode_len() > 0 { t.get_char(0) } else { '\0' };
    if 'A' <= ch && ch <= 'Z' { ((ch as u8) + 32) as char } else { ch }
}

fn match_at_exec(cells: &[Cell], q: &[char], start: usize) -> (r: bool)
    requires
        start + q@.len() <= cells@.len(),
    ensures
        r == match_at(cells_view(cells@), q@, start as int),
{
    let n = cells.len();
    let mut i: usize = 0;
    while i < q.len()
        invariant
            n == cells@.len(),
            start + q@.len() <= cells@.len(),
            i <= q@.len(),
            forall|k: int| 0 <= k < i ==> #[trigger] search_char(cells_view(cells@)[start + k]) == q@[k],
        decreases q@.len() - i,
    {
        if cell_search_char(&cells[start + i]) != q[i] {
            assert(cells_view(cells@)[start + i as int] == cells@[start + i as int]@);
            assert(search_char(cells_view(cells@)[start + i as int]) != q@[i as int]);
            return false;
        }
        assert(cells_view(cells@)[start + i as int] == cells@[start + i as int]@);
        i = i + 1;
    }
    true
}

fn push_row_matches(out: &mut Vec<(bool, usize, usize, usize)>, cells: &[Cell], q: &[char], is_sb: bool, row: usize)
    requires
        q@.len() >= 1,
    ensures
        matches_view(final(out)@) == matches_view(old(out)@) + row_matches(cells_view(cells@), q@, is_sb, row as nat, 0),
{
    let n = cells.len();
    let qlen = q.len();
    let ghost cv = cells_view(cells@);
    let ghost base = matches_view(out@);
    if qlen > n {
        assert(base + Seq::<(bool, nat, nat, nat)>::empty() =~= base);
        return;
    }
    let mut start: usize = 0;
    while start <= n - qlen
        invariant
            n == cells@.len(),
            qlen == q@.len(),
            qlen >= 1,
            qlen <= n,
            cv == cells_view(cells@),
            start <= n - qlen + 1,
            matches_view(out@) + row_matches(cv, q@, is_sb, row as nat, start as nat) == base + row_matches(cv, q@, is_sb, row as nat, 0),
        decreases n - qlen + 1 - start,
    {
        let ghost before = matches_view(out@);
        if match_at_exec(cells, q, start) {
            out.push((is_sb, row, start, start + qlen));
            assert(matches_view(out@) =~= before.push((is_sb, row as nat, start as nat, (start + qlen) as nat)));
        }
        assert(matches_view(out@) + row_matches(cv, q@, is_sb, row as nat, (start + 1) as nat) =~= before + row_matches(cv, q@, is_sb, row as nat, start as nat));
        start = start + 1;
    }
    assert(row_matches(cv, q@, is_sb, row as nat, start as nat) =~= Seq::<(bool, nat, nat, nat)>::empty());
    assert(matches_view(out@) + Seq::<(bool, nat, nat, nat)>::empty() =~= matches_view(out@));
}

/// All matches of a search query (see [`search_matches`]).
pub fn compute_search_matches(grid: &Grid, query: &str) -> (out: Vec<(bool, usize, usize, usize)>)
    requires
        grid.wf(),
    ensures
        matches_view(out@) == search_matches(grid@, query@),
{
    let ghost g = grid@;
    let qv = crate::text::chars_of(query);
    let qn = qv.len();
    let q = lower_chars_all(qv.as_slice(), qn);
    let mut out: Vec<(bool, usize, usize, usize)> = Vec::new();
    if q.len() == 0 {
        assert(matches_view(out@) =~= Seq::<(bool, nat, nat, nat)>::empty());
        return out;
    }
    let sb = grid.scrollback.len();
    let mut r: usize = 0;
    assert(matches_view(out@) =~= Seq::<(bool, nat, nat, nat)>::empty());
    assert(matches_view(out@) + scrollback_matches(g, q@, 0) =~= scrollback_matches(g, q@, 0));
    while r < sb
        invariant
            r <= sb,
            sb == g.scrollback.len(),
            g == grid@,
            q@.len() >= 1,
            matches_view(out@) + scrollback_matches(g, q@, r as nat) == scrollback_matches(g, q@, 0),
        decreases sb - r,
    {
        let ghost before = matches_view(out@);
        let e = &grid.scrollback[r];
        assert(g.scrollback[r as int].0 == cells_view(e.0@));
        push_row_matches(&mut out, e.0.as_slice(), q.as_slice(), true, r);
        assert(matches_view(out@) + scrollback_matches(g, q@, (r + 1) as nat) =~= before + scrollback_matches(g, q@, r as nat));
        r = r + 1;
    }
    assert(scrollback_matches(g, q@, r as nat) =~= Seq::<(bool, nat, nat, nat)>::empty());
    assert(matches_view(out@) =~= scrollback_matches(g, q@, 0));
    let rows = grid.rows;
    let ghost base = matches_view(out@);
    let mut y: usize = 0;
    assert(matches_view(out@) + screen_matches(g, q@, 0) =~= base + screen_matches(g, q@, 0));
    while y < rows
        invariant
            y <= rows,
            rows == g.rows,
            g == grid@,
            grid.wf(),
            q@.len() >= 1,
            matches_view(out@) + screen_matches(g, q@, y as nat) == base + screen_matches(g, q@, 0),
        decreases rows - y,
    {
        let ghost before = matches_view(out@);
        push_row_matches(&mut out, grid.row(y), q.as_slice(), false, y);
        assert(matches_view(out@) + screen_matches(g, q@, (y + 1) as nat) =~= before + screen_matches(g, q@, y as nat));
        y = y + 1;
    }
    assert(screen_matches(g, q@, y as nat) =~= Seq::<(bool, nat, nat, nat)>::empty());
    assert(matches_view(out@) =~= base + screen_matches(g, q@, 0));
    out
}

fn lower_chars_all(v: &[char], n: usize) -> (out: Vec<char>)
    requires
        n == v@.len(),
    ensures
        out@ == crate::config::ascii_lower(v@),
{
    let mut out: Vec<char> = Vec::new();
    let mut i: usize = 0;
    while i < n
        invariant
            n == v@.len(),
            i <= n,
            out@ == crate::config::ascii_lower(v@.take(i as int)),
        decreases n - i,
    {
        let c = v[i];
        let l = if 'A' <= c && c <= 'Z' { ((c as u8) + 32) as char } else { c };
        out.push(l);
        i = i + 1;
        assert(out@ =~= crate::config::ascii_lower(v@.take(i as int)));
    }
    assert(v@.take(n as int) =~= v@);
    out
}

/// A mouse button.
#[derive(Clone, Copy, Debug, PartialEq, Eq, Structural)]
pub enum MouseButton {
    Left,
    Middle,
    Right,
    Other,
}

/// The button code of a mouse report: the button (3 for none, as in motion without a
/// button), plus 32 for motion and 4, 8, 16 for shift, alt and control.
pub open spec fn button_code(button: Option<MouseButton>, motion: bool, shift: bool, alt: bool, ctrl: bool) -> Option<nat> {
    let b: Option<nat> = match button {
        Some(MouseButton::Left) => Some(0),
        Some(MouseButton::Middle) => Some(1),
        Some(MouseButton::Right) => Some(2),
        None => Some(3),
        Some(MouseButton::Other) => None,
    };
    match b {
        None => None,
        Some(c) => Some(c + (if motion { 32nat } else { 0 }) + (if shift { 4nat } else { 0 }) + (if alt { 8nat } else { 0 }) + (if ctrl { 16nat } else { 0 })),
    }
}

/// A mouse report for cell (`col`, `row`): SGR form `ESC [ < code ; col+1 ; row+1 M|m`
/// (press or release), or the legacy form `ESC [ M` with code, column and row each
/// offset by 32 and capped at 255. Other buttons are not reported.
pub open spec fn mouse_report(button: Option<MouseButton>, pressed: bool, motion: bool, shift: bool, alt: bool, ctrl: bool, sgr: bool, col: nat, row: nat) -> Option<Seq<u8>> {
    match button_code(button, motion, shift, alt, ctrl) {
        None => None,
        Some(cb) => if sgr {
            Some(seq![0x1bu8, 0x5b, 0x3c] + decimal(cb) + seq![0x3bu8] + decimal(col + 1) + seq![0x3bu8] + decimal(row + 1) + seq![if pressed { 0x4du8 } else { 0x6du8 }])
        } else {
            let cap = |x: nat| if x > 255 { 255u8 } else { x as u8 };
            Some(seq![0x1bu8, 0x5b, 0x4d, cap(cb + 32), cap(col + 33), cap(row + 33)])
        },
    }
}

fn button_code_exec(button: Option<MouseButton>, motion: bool, shift: bool, alt: bool, ctrl: bool) -> (r: Option<usize>)
    ensures
        match r {
            Some(c) => button_code(button, motion, shift, alt, ctrl) == Some(c as nat) && c <= 63,
            None => button_code(button, motion, shift, alt, ctrl) is None,
        },
{
    let mut cb: usize = match button {
        Some(MouseButton::Left) => 0,
        Some(MouseButton::Middle) => 1,
        Some(MouseButton::Right) => 2,
        None => 3,
        Some(MouseButton::Other) => return None,
    };
    if motion {
        cb = cb + 32;
    }
    if shift {
        cb = cb + 4;
    }
    if alt {
        cb = cb + 8;
    }
    if ctrl {
        cb = cb + 16;
    }
    Some(cb)
}

fn sgr_report(cb: usize, pressed: bool, col: usize, row: usize) -> (out: Vec<u8>)
    requires
        col + 1 <= usize::MAX,
        row + 1 <= usize::MAX,
    ensures
        out@ == seq![0x1bu8, 0x5b, 0x3c] + decimal(cb as nat) + seq![0x3bu8] + decimal((col + 1) as nat) + seq![0x3bu8] + decimal((row + 1) as nat) + seq![if pressed { 0x4du8 } else { 0x6du8 }],
{
    let mut out = vec![0x1bu8, 0x5b, 0x3c];
    push_decimal(&mut out, cb);
    out.push(0x3b);
    push_decimal(&mut out, col + 1);
    out.push(0x3b);
    push_decimal(&mut out, row + 1);
    out.push(if pressed { 0x4d } else { 0x6d });
    out
}

/// The report of a mouse event (see [`mouse_report`]).
pub fn mouse_event_bytes(button: Option<MouseButton>, pressed: bool, motion: bool, shift: bool, alt: bool, ctrl: bool, sgr: bool, col: usize, row: usize) -> (r: Option<Vec<u8>>)
    requires
        col + 33 <= usize::MAX,
        row + 33 <= usize::MAX,
    ensures
        match r {
            Some(v) => mouse_report(button, pressed, motion, shift, alt, ctrl, sgr, col as nat, row as nat) == Some(v@),
            None => mouse_report(button, pressed, motion, shift, alt, ctrl, sgr, col as nat, row as nat) is None,
        },
{
    let cb = match button_code_exec(button, motion, shift, alt, ctrl) {
        Some(c) => c,
        None => return None,
    };
    if sgr {
        Some(sgr_report(cb, pressed, col, row))
    } else {
        let b = if cb + 32 > 255 { 255u8 } else { (cb + 32) as u8 };
        let x = if col + 33 > 255 { 255u8 } else { (col + 33) as u8 };
        let y = if row + 33 > 255 { 255u8 } else { (row + 33) as u8 };
        let out = vec![0x1bu8, 0x5b, 0x4d, b, x, y];
        Some(out)
    }
}


/// The character a cell shows for searching, before case folding.
pub open spec fn shown_char(cell: CellView) -> char {
    if cell.text.len() > 0 { cell.text[0] } else { '\0' }
}

/// Whether `query` occurs in `row` at column `c`, ignoring ASCII case.
pub open spec fn occurs_at(row: Seq<CellView>, query: Seq<char>, c: int) -> bool {
    &&& 0 <= c
    &&& c + query.len() <= row.len()
    &&& forall|i: int| 0 <= i < query.len() ==> lower_char(#[trigger] shown_char(row[c + i])) == lower_char(query[i])
}

proof fn lemma_row_contains(cells: Seq<CellView>, q: Seq<char>, sb: bool, row: nat, start: nat, c: nat)
    requires
        start <= c,
        c + q.len() <= cells.len(),
        match_at(cells, q, c as int),
    ensures
        row_matches(cells, q, sb, row, start).contains((sb, row, c, c + q.len())),
    decreases c - start,
{
    let m = row_matches(cells, q, sb, row, start);
    if start == c {
        assert(m[0] == (sb, row, c, c + q.len()));
    } else {
        lemma_row_contains(cells, q, sb, row, start + 1, c);
        let rest = row_matches(cells, q, sb, row, start + 1);
        let k = choose|k: int| 0 <= k < rest.len() && rest[k] == (sb, row, c, c + q.len());
        if match_at(cells, q, start as int) {
            assert(m[k + 1] == rest[k]);
        }
    }
}

proof fn lemma_row_entries(cells: Seq<CellView>, q: Seq<char>, sb: bool, row: nat, start: nat)
    ensures
        forall|k: int| 0 <= k < row_matches(cells, q, sb, row, start).len() ==> {
            let e = #[trigger] row_matches(cells, q, sb, row, start)[k];
            &&& e.0 == sb && e.1 == row && e.3 == e.2 + q.len() && e.3 <= cells.len()
            &&& match_at(cells, q, e.2 as int)
        },
    decreases cells.len() + 1 - start,
{
    if !(q.len() > cells.len() || start + q.len() > cells.len()) {
        lemma_row_entries(cells, q, sb, row, start + 1);
        let m = row_matches(cells, q, sb, row, start);
        let rest = row_matches(cells, q, sb, row, start + 1);
        if match_at(cells, q, start as int) {
            assert forall|k: int| 0 <= k < m.len() implies {
                let e = #[trigger] m[k];
                &&& e.0 == sb && e.1 == row && e.3 == e.2 + q.len() && e.3 <= cells.len()
                &&& match_at(cells, q, e.2 as int)
            } by {
                if k > 0 {
                    assert(m[k] == rest[k - 1]);
                }
            }
        }
    }
}

proof fn lemma_sb_contains(g: GridModel, q: Seq<char>, r0: nat, r: nat, c: nat)
    requires
        r0 <= r < g.scrollback.len(),
        c + q.len() <= g.scrollback[r as int].0.len(),
        match_at(g.scrollback[r as int].0, q, c as int),
    ensures
        scrollback_matches(g, q, r0).contains((true, r, c, c + q.len())),
    decreases r - r0,
{
    let a = row_matches(g.scrollback[r0 as int].0, q, true, r0, 0);
    let rest = scrollback_matches(g, q, r0 + 1);
    if r0 == r {
        lemma_row_contains(g.scrollback[r as int].0, q, true, r, 0, c);
        let k = choose|k: int| 0 <= k < a.len() && a[k] == (true, r, c, c + q.len());
        assert((a + rest)[k] == a[k]);
    } else {
        lemma_sb_contains(g, q, r0 + 1, r, c);
        let k = choose|k: int| 0 <= k < rest.len() && rest[k] == (true, r, c, c + q.len());
        assert((a + rest)[a.len() + k] == rest[k]);
    }
}

proof fn lemma_screen_contains(g: GridModel, q: Seq<char>, r0: nat, r: nat, c: nat)
    requires
        r0 <= r < g.rows,
        c + q.len() <= g.screen[r as int].len(),
        match_at(g.screen[r as int], q, c as int),
    ensures
        screen_matches(g, q, r0).contains((false, r, c, c + q.len())),
    decreases r - r0,
{
    let a = row_matches(g.screen[r0 as int], q, false, r0, 0);
    let rest = screen_matches(g, q, r0 + 1);
    if r0 == r {
        lemma_row_contains(g.screen[r as int], q, false, r, 0, c);
        let k = choose|k: int| 0 <= k < a.len() && a[k] == (false, r, c, c + q.len());
        assert((a + rest)[k] == a[k]);
    } else {
        lemma_screen_contains(g, q, r0 + 1, r, c);
        let k = choose|k: int| 0 <= k < rest.len() && rest[k] == (false, r, c, c + q.len());
        assert((a + rest)[a.len() + k] == rest[k]);
    }
}

proof fn lemma_sb_entries(g: GridModel, q: Seq<char>, r0: nat)
    ensures
        forall|k: int| 0 <= k < scrollback_matches(g, q, r0).len() ==> {
            let e = #[trigger] scrollback_matches(g, q, r0)[k];
            &&& e.0 && r0 <= e.1 < g.scrollback.len()
            &&& e.3 == e.2 + q.len() && e.3 <= g.scrollback[e.1 as int].0.len()
            &&& match_at(g.scrollback[e.1 as int].0, q, e.2 as int)
        },
    decreases g.scrollback.len() - r0,
{
    if r0 < g.scrollback.len() {
        lemma_sb_entries(g, q, r0 + 1);
        let a = row_matches(g.scrollback[r0 as int].0, q, true, r0, 0);
        lemma_row_entries(g.scrollback[r0 as int].0, q, true, r0, 0);
        let rest = scrollback_matches(g, q, r0 + 1);
        let m = scrollback_matches(g, q, r0);
        assert forall|k: int| 0 <= k < m.len() implies {
            let e = #[trigger] m[k];
            &&& e.0 && r0 <= e.1 < g.scrollback.len()
            &&& e.3 == e.2 + q.len() && e.3 <= g.scrollback[e.1 as int].0.len()
            &&& match_at(g.scrollback[e.1 as int].0, q, e.2 as int)
        } by {
            if k < a.len() {
                assert(m[k] == a[k]);
            } else {
                assert(m[k] == rest[k - a.len()]);
            }
        }
    }
}

proof fn lemma_screen_entries(g: GridModel, q: Seq<char>, r0: nat)
    ensures
        forall|k: int| 0 <= k < screen_matches(g, q, r0).len() ==> {
            let e = #[trigger] screen_matches(g, q, r0)[k];
            &&& !e.0 && r0 <= e.1 < g.rows
            &&& e.3 == e.2 + q.len() && e.3 <= g.screen[e.1 as int].len()
            &&& match_at(g.screen[e.1 as int], q, e.2 as int)
        },
    decreases g.rows - r0,
{
    if r0 < g.rows {
        lemma_screen_entries(g, q, r0 + 1);
        let a = row_matches(g.screen[r0 as int], q, false, r0, 0);
        lemma_row_entries(g.screen[r0 as int], q, false, r0, 0);
        let rest = screen_matches(g, q, r0 + 1);
        let m = screen_matches(g, q, r0);
        assert forall|k: int| 0 <= k < m.len() implies {
            let e = #[trigger] m[k];
            &&& !e.0 && r0 <= e.1 < g.rows
            &&& e.3 == e.2 + q.len() && e.3 <= g.screen[e.1 as int].len()
            &&& match_at(g.screen[e.1 as int], q, e.2 as int)
        } by {
            if k < a.len() {
                assert(m[k] == a[k]);
            } else {
                assert(m[k] == rest[k - a.len()]);
            }
        }
    }
}

proof fn lemma_occurs_matches(row: Seq<CellView>, query: Seq<char>, c: int)
    ensures
        occurs_at(row, query, c) <==> (0 <= c && c + query.len() <= row.len()
            && match_at(row, crate::config::ascii_lower(query), c)),
{
    let q = crate::config::ascii_lower(query);
    if 0 <= c && c + query.len() <= row.len() {
        if occurs_at(row, query, c) {
            assert forall|i: int| 0 <= i < q.len() implies #[trigger] search_char(row[c + i]) == q[i] by {
                assert(lower_char(shown_char(row[c + i])) == lower_char(query[i]));
            }
        }
        if match_at(row, q, c) {
            assert forall|i: int| 0 <= i < query.len() implies lower_char(#[trigger] shown_char(row[c + i])) == lower_char(query[i]) by {
                assert(search_char(row[c + i]) == q[i]);
            }
        }
    }
}

/// Searching finds every occurrence of a non-empty query, ignoring ASCII case, in the
/// scrollback and on the screen, and nothing else: each match is an occurrence in the
/// row it names, flagged as in the scrollback or on the screen, and all the matches in
/// the scrollback come before those on the screen.
pub proof fn law_search_finds_all(g: GridModel, query: Seq<char>, sb: bool, r: nat, c: nat)
    requires
        query.len() > 0,
    ensures
        sb && r < g.scrollback.len() && occurs_at(g.scrollback[r as int].0, query, c as int)
            ==> search_matches(g, query).contains((true, r, c, c + query.len())),
        !sb && r < g.rows && occurs_at(g.screen[r as int], query, c as int)
            ==> search_matches(g, query).contains((false, r, c, c + query.len())),
        forall|k: int| 0 <= k < search_matches(g, query).len() ==> {
            let e = #[trigger] search_matches(g, query)[k];
            &&& e.3 == e.2 + query.len()
            &&& e.0 ==> e.1 < g.scrollback.len() && occurs_at(g.scrollback[e.1 as int].0, query, e.2 as int)
            &&& !e.0 ==> e.1 < g.rows && occurs_at(g.screen[e.1 as int], query, e.2 as int)
        },
        forall|i: int, j: int| 0 <= i < j < search_matches(g, query).len() && (#[trigger] search_matches(g, query)[j]).0
            ==> (#[trigger] search_matches(g, query)[i]).0,
{
    let q = crate::config::ascii_lower(query);
    let a = scrollback_matches(g, q, 0);
    let b = screen_matches(g, q, 0);
    let m = search_matches(g, query);
    assert(m == a + b);
    lemma_sb_entries(g, q, 0);
    lemma_screen_entries(g, q, 0);
    if sb && r < g.scrollback.len() && occurs_at(g.scrollback[r as int].0, query, c as int) {
        lemma_occurs_matches(g.scrollback[r as int].0, query, c as int);
        lemma_sb_contains(g, q, 0, r, c);
        let k = choose|k: int| 0 <= k < a.len() && a[k] == (true, r, c, c + q.len());
        assert(m[k] == a[k]);
    }
    if !sb && r < g.rows && occurs_at(g.screen[r as int], query, c as int) {
        lemma_occurs_matches(g.screen[r as int], query, c as int);
        lemma_screen_contains(g, q, 0, r, c);
        let k = choose|k: int| 0 <= k < b.len() && b[k] == (false, r, c, c + q.len());
        assert(m[a.len() + k] == b[k]);
    }
    assert forall|k: int| 0 <= k < m.len() implies {
        let e = #[trigger] m[k];
        &&& e.3 == e.2 + query.len()
        &&& e.0 ==> e.1 < g.scrollback.len() && occurs_at(g.scrollback[e.1 as int].0, query, e.2 as int)
        &&& !e.0 ==> e.1 < g.rows && occurs_at(g.screen[e.1 as int], query, e.2 as int)
    } by {
        if k < a.len() {
            assert(m[k] == a[k]);
            lemma_occurs_matches(g.scrollback[a[k].1 as int].0, query, a[k].2 as int);
        } else {
            assert(m[k] == b[k - a.len()]);
            lemma_occurs_matches(g.screen[b[k - a.len()].1 as int], query, b[k - a.len()].2 as int);
        }
    }
    assert forall|i: int, j: int| 0 <= i < j < m.len() && (#[trigger] m[j]).0 implies (#[trigger] m[i]).0 by {
        if j >= a.len() {
            assert(m[j] == b[j - a.len()]);
        }
        assert(m[i] == a[i]);
    }
}

} // verus!
