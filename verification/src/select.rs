//! Rows as displayed with scrollback, hovered URLs, and text selection.
use vstd::prelude::*;
use crate::ext::{char_is_alphanumeric, char_is_whitespace, unicode_alphanumeric, unicode_whitespace};
use crate::grid::{cells_view, min_nat, sat_sub, Cell, CellView, Grid, GridModel};
use crate::text::{chars_of, push_chars, trim_end};
use crate::url::{detect_urls, joined_cells_text, joined_text, lead_char, term_end, url_continuation_len, url_entries_view, urls_from};

verus! {

/// How many scrollback rows are shown above the screen when scrolled back by `off`.
pub open spec fn shown_back(g: GridModel, off: nat) -> nat {
    min_nat(off, g.scrollback.len())
}

/// Display row `y` when scrolled back by `off`: first the last `shown_back` rows of the
/// scrollback, then the screen.
pub open spec fn display_row(g: GridModel, off: nat, y: nat) -> Option<Seq<CellView>> {
    let sb = g.scrollback.len();
    let c = shown_back(g, off);
    if y < c {
        Some(g.scrollback[sb - c + y].0)
    } else if y - c < g.rows {
        Some(g.screen[y - c])
    } else {
        None
    }
}

/// The row shown at display row `y` (see [`display_row`]).
pub fn get_display_row(grid: &Grid, scroll_offset: usize, y: usize) -> (out: Option<&[Cell]>)
    requires
        grid.wf(),
    ensures
        match out {
            Some(s) => display_row(grid@, scroll_offset as nat, y as nat) == Some(cells_view(s@)),
            None => display_row(grid@, scroll_offset as nat, y as nat) is None,
        },
{
    let sb_len = grid.scrollback.len();
    let clamped = if scroll_offset < sb_len { scroll_offset } else { sb_len };
    if y < clamped {
        let e = &grid.scrollback[sb_len - clamped + y];
        Some(e.0.as_slice())
    } else if y - clamped < grid.rows {
        Some(grid.row(y - clamped))
    } else {
        None
    }
}

/// A URL that reaches the right margin continues on the following display rows: each
/// adds the cells before its first terminator, and a row that is not filled to its end
/// ends the URL. Gives the text and the last row that contributed (`end`, initially).
pub open spec fn stitch_from(g: GridModel, off: nat, r: nat, url: Seq<char>, end: nat) -> (Seq<char>, nat)
    decreases shown_back(g, off) + g.rows - r,
{
    if r >= shown_back(g, off) + g.rows {
        (url, end)
    } else {
        match display_row(g, off, r) {
            None => (url, end),
            Some(cells) => {
                let cont = term_end(cells, 0);
                if cont <= 0 {
                    (url, end)
                } else {
                    let u2 = url + joined_text(cells, 0, cont);
                    if cont < cells.len() {
                        (u2, r)
                    } else {
                        stitch_from(g, off, r + 1, u2, r)
                    }
                }
            },
        }
    }
}

/// Extend `base` with the continuation of a URL from display row `start_row` on (see
/// [`stitch_from`]).
pub fn stitch_continuation(base: String, grid: &Grid, scroll_offset: usize, start_row: usize) -> (out: (String, usize))
    requires
        grid.wf(),
        grid@.scrollback.len() + grid@.rows <= usize::MAX,
    ensures
        (out.0@, out.1 as nat) == stitch_from(grid@, scroll_offset as nat, start_row as nat, base@, sat_sub(start_row as nat, 1)),
{
    let ghost g = grid@;
    let ghost off = scroll_offset as nat;
    let ghost target = stitch_from(g, off, start_row as nat, base@, sat_sub(start_row as nat, 1));
    let mut url = base;
    let mut end_row: usize = if start_row >= 1 { start_row - 1 } else { 0 };
    let mut r = start_row;
    let sb_len = grid.scrollback.len();
    let rows = grid.rows;
    loop
        invariant_except_break
            stitch_from(g, off, r as nat, url@, end_row as nat) == target,
        invariant
            grid.wf(),
            g == grid@,
            off == scroll_offset as nat,
            sb_len == g.scrollback.len(),
            rows == g.rows,
            sb_len + rows <= usize::MAX,
        ensures
            (url@, end_row as nat) == target,
        decreases shown_back(g, off) + g.rows - r,
    {
        let ghost url0 = url@;
        let ghost end0 = end_row as nat;
        let cells = match get_display_row(grid, scroll_offset, r) {
            Some(c) => c,
            None => {
                assert(stitch_from(g, off, r as nat, url0, end0) == (url0, end0));
                break;
            },
        };
        let ghost cv = cells_view(cells@);
        let cont = url_continuation_len(cells);
        if cont == 0 {
            assert(stitch_from(g, off, r as nat, url0, end0) == (url0, end0));
            break;
        }
        proof {
            crate::url::lemma_term_end_bounds(cv, 0);
        }
        let piece = joined_cells_text(cells, 0, cont);
        push_chars(&mut url, chars_of(piece.as_str()).as_slice());
        end_row = r;
        if cont < cells.len() {
            assert(stitch_from(g, off, r as nat, url0, end0) == (url@, end_row as nat));
            break;
        }
        assert(stitch_from(g, off, r as nat, url0, end0) == stitch_from(g, off, (r + 1) as nat, url@, end_row as nat));
        r = r + 1;
    }
    (url, end_row)
}

/// The first URL entry whose columns cover `col`.
pub open spec fn first_covering(v: Seq<(nat, nat, Seq<char>)>, col: nat) -> Option<(nat, nat, Seq<char>)>
    decreases v.len(),
{
    if v.len() == 0 {
        None
    } else if v[0].0 <= col <= v[0].1 {
        Some(v[0])
    } else {
        first_covering(v.drop_first(), col)
    }
}

/// The first URL entry that ends at column `e`.
pub open spec fn first_ending_at(v: Seq<(nat, nat, Seq<char>)>, e: nat) -> Option<(nat, nat, Seq<char>)>
    decreases v.len(),
{
    if v.len() == 0 {
        None
    } else if v[0].1 == e {
        Some(v[0])
    } else {
        first_ending_at(v.drop_first(), e)
    }
}

/// The URL under display cell (`col`, `row`) and the span it covers (first row, first
/// column, last row): a hyperlink on the cell itself; a URL in the row, continued on the
/// following rows when it reaches the margin; or the continuation of a URL that ends at
/// the margin of the row above.
pub open spec fn hovered_url(g: GridModel, off: nat, col: nat, row: nat) -> (Option<Seq<char>>, Option<(nat, nat, nat)>) {
    match display_row(g, off, row) {
        None => (None, None),
        Some(cells) => {
            if col < cells.len() && cells[col as int].link is Some {
                (Some(cells[col as int].link.unwrap().uri), Some((row, col, row)))
            } else {
                match first_covering(urls_from(cells, 0), col) {
                    Some((s, e, partial)) => {
                        let stitched = if e == sat_sub(cells.len(), 1) {
                            stitch_from(g, off, row + 1, partial, row)
                        } else {
                            (partial, row)
                        };
                        (Some(stitched.0), Some((row, s, stitched.1)))
                    },
                    None => {
                        if row > 0 {
                            match display_row(g, off, (row - 1) as nat) {
                                Some(prev) => match first_ending_at(urls_from(prev, 0), sat_sub(prev.len(), 1)) {
                                    Some((s, _, partial)) => {
                                        let cont = term_end(cells, 0);
                                        if cont > 0 && col < cont {
                                            let stitched = stitch_from(g, off, row, partial, sat_sub(row, 1));
                                            (Some(stitched.0), Some(((row - 1) as nat, s, stitched.1)))
                                        } else {
                                            (None, None)
                                        }
                                    },
                                    None => (None, None),
                                },
                                None => (None, None),
                            }
                        } else {
                            (None, None)
                        }
                    },
                }
            }
        },
    }
}

fn find_covering(v: &Vec<(usize, usize, String)>, col: usize) -> (r: Option<usize>)
    ensures
        match r {
            Some(i) => i < v@.len() && first_covering(url_entries_view(v@), col as nat) == Some(url_entries_view(v@)[i as int]),
            None => first_covering(url_entries_view(v@), col as nat) is None,
        },
{
    let ghost w = url_entries_view(v@);
    let mut i: usize = 0;
    assert(w.skip(0) =~= w);
    while i < v.len()
        invariant
            i <= v@.len(),
            w == url_entries_view(v@),
            first_covering(w.skip(i as int), col as nat) == first_covering(w, col as nat),
        decreases v@.len() - i,
    {
        assert(w.skip(i as int).drop_first() =~= w.skip(i + 1));
        if v[i].0 <= col && col <= v[i].1 {
            return Some(i);
        }
        i = i + 1;
    }
    None
}

fn find_ending_at(v: &Vec<(usize, usize, String)>, e: usize) -> (r: Option<usize>)
    ensures
        match r {
            Some(i) => i < v@.len() && first_ending_at(url_entries_view(v@), e as nat) == Some(url_entries_view(v@)[i as int]),
            None => first_ending_at(url_entries_view(v@), e as nat) is None,
        },
{
    let ghost w = url_entries_view(v@);
    let mut i: usize = 0;
    assert(w.skip(0) =~= w);
    while i < v.len()
        invariant
            i <= v@.len(),
            w == url_entries_view(v@),
            first_ending_at(w.skip(i as int), e as nat) == first_ending_at(w, e as nat),
        decreases v@.len() - i,
    {
        assert(w.skip(i as int).drop_first() =~= w.skip(i + 1));
        if v[i].1 == e {
            return Some(i);
        }
        i = i + 1;
    }
    None
}


pub open spec fn opt_string(s: Option<String>) -> Option<Seq<char>> {
    match s {
        Some(t) => Some(t@),
        None => None,
    }
}

pub open spec fn opt_span(p: Option<(usize, usize, usize)>) -> Option<(nat, nat, nat)> {
    match p {
        Some((a, b, c)) => Some((a as nat, b as nat, c as nat)),
        None => None,
    }
}

/// The URL under a display cell and the span it covers (see [`hovered_url`]).
pub fn resolve_hovered_url(grid: &Grid, scroll_offset: usize, col: usize, row: usize) -> (out: (Option<String>, Option<(usize, usize, usize)>))
    requires
        grid.wf(),
        grid@.scrollback.len() + grid@.rows <= usize::MAX,
    ensures
        (opt_string(out.0), opt_span(out.1)) == hovered_url(grid@, scroll_offset as nat, col as nat, row as nat),
{
    let ghost g = grid@;
    let ghost off = scroll_offset as nat;
    let row_cells = match get_display_row(grid, scroll_offset, row) {
        Some(c) => c,
        None => return (None, None),
    };
    let ghost cv = cells_view(row_cells@);
    if col < row_cells.len() {
        if let Some(l) = &row_cells[col].uri {
            return (Some(l.uri.clone()), Some((row, col, row)));
        }
    }
    let row_len = row_cells.len();
    let urls = detect_urls(row_cells);
    match find_covering(&urls, col) {
        Some(i) => {
            let s = urls[i].0;
            let e = urls[i].1;
            let partial = urls[i].2.clone();
            let last = if row_len >= 1 { row_len - 1 } else { 0 };
            let (full, end_row) = if e == last {
                stitch_continuation(partial, grid, scroll_offset, row + 1)
            } else {
                (partial, row)
            };
            return (Some(full), Some((row, s, end_row)));
        },
        None => {},
    }
    if row > 0 {
        if let Some(prev) = get_display_row(grid, scroll_offset, row - 1) {
            let prev_len = prev.len();
            let purls = detect_urls(prev);
            let last = if prev_len >= 1 { prev_len - 1 } else { 0 };
            if let Some(i) = find_ending_at(&purls, last) {
                let cont = url_continuation_len(row_cells);
                if cont > 0 && col < cont {
                    let (full, end_row) = stitch_continuation(purls[i].2.clone(), grid, scroll_offset, row);
                    return (Some(full), Some((row - 1, purls[i].0, end_row)));
                }
            }
        }
    }
    (None, None)
}

/// A selection's two ends in reading order (row first, then column).
pub open spec fn ordered(start: (nat, nat), end: (nat, nat)) -> ((nat, nat), (nat, nat)) {
    if start.1 < end.1 || (start.1 == end.1 && start.0 <= end.0) { (start, end) } else { (end, start) }
}

/// Put the ends of a selection, given as (column, row), in reading order.
pub fn normalize_sel(start: (usize, usize), end: (usize, usize)) -> (out: ((usize, usize), (usize, usize)))
    ensures
        ((out.0.0 as nat, out.0.1 as nat), (out.1.0 as nat, out.1.1 as nat))
            == ordered((start.0 as nat, start.1 as nat), (end.0 as nat, end.1 as nat)),
{
    let (sc, sr) = start;
    let (ec, er) = end;
    if sr < er || (sr == er && sc <= ec) {
        (start, end)
    } else {
        (end, start)
    }
}

/// Characters that belong to a word when double-clicking: letters, digits and `_`.
pub open spec fn word_char(c: char) -> bool {
    unicode_alphanumeric(c) || c == '_'
}

/// The character scanned at column `i`, a space past the row's end.
pub open spec fn char_at(cells: Seq<CellView>, i: int) -> char {
    if 0 <= i < cells.len() { lead_char(cells[i]) } else { ' ' }
}

/// Scanning left from `i`: one past the nearest column whose word-ness differs from
/// `w`, or 0.
pub open spec fn scan_back(cells: Seq<CellView>, i: int, w: bool) -> nat
    decreases i,
{
    if i < 0 {
        0
    } else if word_char(char_at(cells, i)) != w {
        (i + 1) as nat
    } else if i == 0 {
        0
    } else {
        scan_back(cells, i - 1, w)
    }
}

/// Scanning right from `i`: one before the nearest column whose word-ness differs from
/// `w`, or the last column.
pub open spec fn scan_fwd(cells: Seq<CellView>, i: int, w: bool) -> nat
    decreases cells.len() - i,
{
    if i < 0 || i >= cells.len() {
        sat_sub(cells.len(), 1)
    } else if word_char(char_at(cells, i)) != w {
        sat_sub(i as nat, 1)
    } else {
        scan_fwd(cells, i + 1, w)
    }
}

/// The columns of the word (or the run of non-word characters) around `col`.
pub open spec fn word_bounds(cells: Seq<CellView>, col: nat) -> (nat, nat) {
    let c = min_nat(col, sat_sub(cells.len(), 1));
    let w = c < cells.len() && word_char(lead_char(cells[c as int]));
    let s = scan_back(cells, c as int, w);
    let e = scan_fwd(cells, c as int, w);
    (s, if e >= s { e } else { s })
}

fn is_word_char(c: char) -> (r: bool)
    ensures
        r == word_char(c),
{
    char_is_alphanumeric(c) || c == '_'
}

fn char_at_exec(cells: &[Cell], i: usize) -> (c: char)
    ensures
        c == char_at(cells_view(cells@), i as int),
{
    if i < cells.len() { crate::url::cell_lead_char(&cells[i]) } else { ' ' }
}

/// The word boundaries around a clicked column (see [`word_bounds`]).
pub fn find_word_boundaries(row_cells: &[Cell], col: usize) -> (out: (usize, usize))
    ensures
        (out.0 as nat, out.1 as nat) == word_bounds(cells_view(row_cells@), col as nat),
{
    let ghost cv = cells_view(row_cells@);
    let n = row_cells.len();
    let last = if n >= 1 { n - 1 } else { 0 };
    let c = if col <= last { col } else { last };
    let clicked = c < n && is_word_char(crate::url::cell_lead_char(&row_cells[c]));
    let mut i = c;
    let start;
    loop
        invariant
            i <= c,
            n == row_cells@.len(),
            c == 0 || c < n,
            cv == cells_view(row_cells@),
            scan_back(cv, i as int, clicked) == scan_back(cv, c as int, clicked),
        ensures
            start as nat == scan_back(cv, c as int, clicked),
        decreases i,
    {
        if is_word_char(char_at_exec(row_cells, i)) != clicked {
            start = i + 1;
            break;
        }
        if i == 0 {
            start = 0;
            break;
        }
        i = i - 1;
    }
    let mut j = c;
    let end;
    loop
        invariant
            c <= j,
            n == row_cells@.len(),
            cv == cells_view(row_cells@),
            scan_fwd(cv, j as int, clicked) == scan_fwd(cv, c as int, clicked),
        ensures
            end as nat == scan_fwd(cv, c as int, clicked),
        decreases n - j,
    {
        if j >= n {
            end = if n >= 1 { n - 1 } else { 0 };
            break;
        }
        if is_word_char(char_at_exec(row_cells, j)) != clicked {
            end = if j >= 1 { j - 1 } else { 0 };
            break;
        }
        j = j + 1;
    }
    (start, if end >= start { end } else { start })
}

/// The selected text of display row `r`, for a selection from (`sc`, `sr`) to
/// (`ec`, `er`): the texts of its selected cells, then a line break unless it is the last
/// row or the next line continues it.
pub open spec fn row_piece(g: GridModel, off: nat, r: nat, sr: nat, sc: nat, er: nat, ec: nat) -> Seq<char> {
    match display_row(g, off, r) {
        None => Seq::empty(),
        Some(cells) => {
            let last = sat_sub(g.cols, 1);
            let cs = if r == sr { min_nat(sc, last) } else { 0 };
            let ce = if r == er { min_nat(ec, last) } else { last };
            let stop = min_nat(ce + 1, cells.len());
            let text = if cs < stop { joined_text(cells, cs as int, stop as int) } else { Seq::empty() };
            if r < er && !g.row_continuation[r + 1int] { text.push('\n') } else { text }
        },
    }
}

pub open spec fn rows_text(g: GridModel, off: nat, r: nat, sr: nat, sc: nat, er: nat, ec: nat) -> Seq<char>
    decreases er + 1 - r,
{
    if r > er {
        Seq::empty()
    } else {
        row_piece(g, off, r, sr, sc, er, ec) + rows_text(g, off, r + 1, sr, sc, er, ec)
    }
}

/// The last display row.
pub open spec fn last_display_row(g: GridModel, off: nat) -> nat {
    sat_sub(shown_back(g, off) + g.rows, 1)
}

/// The text of a selection between two display cells given as (column, row): empty for a
/// single point; otherwise the selected rows (clamped to the display) joined, without
/// trailing whitespace.
pub open spec fn selection_text(g: GridModel, off: nat, start: (nat, nat), end: (nat, nat)) -> Seq<char> {
    let (s, e) = ordered(start, end);
    if s.1 == e.1 && s.0 == e.0 {
        Seq::empty()
    } else {
        let sr = min_nat(s.1, last_display_row(g, off));
        let er = min_nat(e.1, last_display_row(g, off));
        trim_end(rows_text(g, off, sr, sr, s.0, er, e.0))
    }
}

/// The line break decision reads the continuation flag of the screen row numbered like
/// the next display row, which must exist.
pub open spec fn selection_ok(g: GridModel, off: nat, start: (nat, nat), end: (nat, nat)) -> bool {
    let (s, e) = ordered(start, end);
    let sr = min_nat(s.1, last_display_row(g, off));
    let er = min_nat(e.1, last_display_row(g, off));
    (s.1 == e.1 && s.0 == e.0) || sr >= er || er < g.rows
}

/// The text of a selection (see [`selection_text`]).
pub fn extract_selection(grid: &Grid, scroll_offset: usize, start: (usize, usize), end: (usize, usize)) -> (out: String)
    requires
        grid.wf(),
        grid@.scrollback.len() + grid@.rows <= usize::MAX,
        selection_ok(grid@, scroll_offset as nat, (start.0 as nat, start.1 as nat), (end.0 as nat, end.1 as nat)),
    ensures
        out@ == selection_text(grid@, scroll_offset as nat, (start.0 as nat, start.1 as nat), (end.0 as nat, end.1 as nat)),
{
    let ghost g = grid@;
    let ghost off = scroll_offset as nat;
    let ((sc, sr), (ec, er)) = normalize_sel(start, end);
    if sr == er && sc == ec {
        return String::new();
    }
    let sb_len = grid.scrollback.len();
    let clamped = if scroll_offset < sb_len { scroll_offset } else { sb_len };
    let max_display = clamped + grid.rows - 1;
    let sr = if sr <= max_display { sr } else { max_display };
    let er = if er <= max_display { er } else { max_display };
    let last = grid.cols - 1;
    let mut result = String::new();
    let mut row = sr;
    assert(result@ + rows_text(g, off, sr as nat, sr as nat, sc as nat, er as nat, ec as nat) =~= rows_text(g, off, sr as nat, sr as nat, sc as nat, er as nat, ec as nat));
    while row <= er
        invariant
            grid.wf(),
            g == grid@,
            off == scroll_offset as nat,
            last == g.cols - 1,
            sr <= row <= er + 1,
            er <= max_display,
            max_display < usize::MAX,
            sr < er ==> er < g.rows,
            result@ + rows_text(g, off, row as nat, sr as nat, sc as nat, er as nat, ec as nat)
                == rows_text(g, off, sr as nat, sr as nat, sc as nat, er as nat, ec as nat),
        decreases er + 1 - row,
    {
        let ghost before = result@;
        let ghost piece = row_piece(g, off, row as nat, sr as nat, sc as nat, er as nat, ec as nat);
        match get_display_row(grid, scroll_offset, row) {
            None => {},
            Some(cells) => {
                let col_start = if row == sr { if sc <= last { sc } else { last } } else { 0 };
                let col_end = if row == er { if ec <= last { ec } else { last } } else { last };
                let stop = if col_end + 1 <= cells.len() { col_end + 1 } else { cells.len() };
                if col_start < stop {
                    let text = joined_cells_text(cells, col_start, stop);
                    push_chars(&mut result, chars_of(text.as_str()).as_slice());
                }
                if row < er && !grid.row_continuation[row + 1] {
                    crate::ext::push_char(&mut result, '\n');
                }
            },
        }
        assert(result@ =~= before + piece);
        assert(result@ + rows_text(g, off, (row + 1) as nat, sr as nat, sc as nat, er as nat, ec as nat)
            =~= before + rows_text(g, off, row as nat, sr as nat, sc as nat, er as nat, ec as nat));
        row = row + 1;
    }
    assert(rows_text(g, off, row as nat, sr as nat, sc as nat, er as nat, ec as nat) =~= Seq::<char>::empty());
    assert(result@ =~= rows_text(g, off, sr as nat, sr as nat, sc as nat, er as nat, ec as nat));
    let v = chars_of(result.as_str());
    let n = v.len();
    let k = crate::text::trimmed_end(v.as_slice(), n);
    assert(v@.subrange(0, n as int) =~= v@);
    crate::text::string_of_chars(v.as_slice(), 0, k)
}

/// Normalising a selection keeps its two ends, puts them in reading order, and leaves
/// an already normalised selection unchanged.
pub proof fn law_normalize_sel(start: (nat, nat), end: (nat, nat))
    ensures
        ({
            let (s, e) = ordered(start, end);
            &&& (s == start && e == end) || (s == end && e == start)
            &&& s.1 < e.1 || (s.1 == e.1 && s.0 <= e.0)
            &&& ordered(s, e) == (s, e)
            &&& ordered(end, start) == ordered(start, end) || start == end
        }),
{
}
} // verus!
