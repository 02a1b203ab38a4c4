//! Control sequences (CSI): rendition, erasing, cursor movement, line and character
//! editing, scroll regions and terminal modes.
use vstd::prelude::*;
use crate::color::{ansi_color, ansi_color_spec, color_256, color_256_spec, rgb, rgb8};
use crate::grid::{keeps_saved, lemma_scrolls_keep_saved, lemma_scroll_down_n_frame, lemma_scroll_down_n_wf, lemma_scroll_up_n_frame, lemma_scroll_up_n_wf, blank, blank_row, cells_view, lemma_screen_cell, min_nat, sat_sub, Cell, CellAttrs, CellView, Grid, GridModel, MouseMode, Rgb};
use crate::parser::AnsiExecutor;
use crate::text::{decimal, push_decimal};

verus! {

/// A grid with row `r` replaced.
pub open spec fn with_row(g: GridModel, r: int, row: Seq<CellView>) -> GridModel {
    GridModel { screen: g.screen.update(r, row), ..g }
}

/// Row `r` with the cells of columns `from..to` blanked.
pub open spec fn blanked(g: GridModel, r: int, from: int, to: int) -> Seq<CellView> {
    Seq::new(g.cols, |c: int| if from <= c < to { blank() } else { g.screen[r][c] })
}

pub open spec fn clear_span(g: GridModel, r: int, from: int, to: int) -> GridModel {
    with_row(g, r, blanked(g, r, from, to))
}

/// Rows `from..to` blanked entirely.
pub open spec fn clear_rows(g: GridModel, from: int, to: int) -> GridModel {
    GridModel {
        screen: Seq::new(g.rows, |r: int| if from <= r < to { blank_row(g.cols) } else { g.screen[r] }),
        ..g
    }
}

/// Row `y` after inserting `k` blank cells at column `x`; cells pushed past the right
/// margin are lost.
pub open spec fn inserted(g: GridModel, y: int, x: int, k: int) -> Seq<CellView> {
    Seq::new(g.cols, |c: int| if c < x { g.screen[y][c] } else if c < x + k { blank() } else { g.screen[y][c - k] })
}

/// Row `y` after deleting `k` cells at column `x`; blank cells enter at the right margin.
pub open spec fn deleted(g: GridModel, y: int, x: int, k: int) -> Seq<CellView> {
    Seq::new(g.cols, |c: int| if c < x { g.screen[y][c] } else if c < g.cols - k { g.screen[y][c + k] } else { blank() })
}

proof fn lemma_row_op_wf(g: GridModel, r: int, row: Seq<CellView>)
    requires
        g.wf(),
        0 <= r < g.rows,
        row.len() == g.cols,
    ensures
        with_row(g, r, row).wf(),
{
    let h = with_row(g, r, row);
    assert forall|q: int| 0 <= q < h.rows implies #[trigger] h.screen[q].len() == h.cols by {
        if q != r {
        }
    }
}

impl Grid {
    /// A copy of the cell at (r, c).
    pub fn cell_copy(&self, r: usize, c: usize) -> (out: Cell)
        requires
            self.wf(),
            r < self.rows,
            c < self.cols,
        ensures
            out@ == self@.screen[r as int][c as int],
    {
        let i = self.index_of(r, c);
        proof {
            lemma_screen_cell(cells_view(self.cells@), self.cols as nat, self.rows as nat, r as int, c as int);
        }
        self.cells[i].duplicate()
    }

    /// Blank the cells of columns `from..to` of row `r`.
    pub fn clear_span(&mut self, r: usize, from: usize, to: usize)
        requires
            old(self).wf(),
            r < old(self).rows,
            from <= to <= old(self).cols,
        ensures
            final(self).wf(),
            final(self)@ == clear_span(old(self)@, r as int, from as int, to as int),
    {
        let ghost g0 = self@;
        let mut c = from;
        assert(g0.screen[r as int] =~= blanked(g0, r as int, from as int, from as int));
        assert(g0.screen.update(r as int, g0.screen[r as int]) =~= g0.screen);
        assert(self@ =~= clear_span(g0, r as int, from as int, c as int));
        while c < to
            invariant
                g0.wf(),
                self.wf(),
                self.cols == g0.cols,
                self.rows == g0.rows,
                r < g0.rows,
                from <= c <= to <= g0.cols,
                self@ == clear_span(g0, r as int, from as int, c as int),
            decreases to - c,
        {
            self.put_cell(r, c, Cell::blank());
            proof {
                assert(self@.screen[r as int] =~= blanked(g0, r as int, from as int, c + 1));
                assert(self@.screen =~= clear_span(g0, r as int, from as int, c + 1).screen);
                lemma_row_op_wf(g0, r as int, blanked(g0, r as int, from as int, c + 1));
            }
            assert(self@ =~= clear_span(g0, r as int, from as int, c + 1));
            c = c + 1;
        }
    }

    /// Blank the rows `from..to` entirely.
    pub fn clear_rows(&mut self, from: usize, to: usize)
        requires
            old(self).wf(),
            from <= to <= old(self).rows,
        ensures
            final(self).wf(),
            final(self)@ == clear_rows(old(self)@, from as int, to as int),
    {
        let ghost g0 = self@;
        let mut r = from;
        assert(self@ =~= clear_rows(g0, from as int, r as int));
        while r < to
            invariant
                g0.wf(),
                self.wf(),
                self.cols == g0.cols,
                self.rows == g0.rows,
                from <= r <= to <= g0.rows,
                self@ == clear_rows(g0, from as int, r as int),
            decreases to - r,
        {
            self.clear_row(r);
            assert(self@.screen =~= clear_rows(g0, from as int, r + 1).screen);
            assert(self@ =~= clear_rows(g0, from as int, r + 1));
            r = r + 1;
        }
    }

    /// Insert `k` blank cells at column `x` of row `y` (ICH).
    pub fn insert_blanks(&mut self, y: usize, x: usize, k: usize)
        requires
            old(self).wf(),
            y < old(self).rows,
            x < old(self).cols,
            k <= old(self).cols - x,
        ensures
            final(self).wf(),
            final(self)@ == with_row(old(self)@, y as int, inserted(old(self)@, y as int, x as int, k as int)),
    {
        let ghost g0 = self@;
        let cols = self.cols;
        let mut j = cols;
        let ghost shifted = |j: int| Seq::new(g0.cols, |c: int| if c >= j { g0.screen[y as int][c - k] } else { g0.screen[y as int][c] });
        assert(shifted(cols as int) =~= g0.screen[y as int]);
        assert(g0.screen.update(y as int, g0.screen[y as int]) =~= g0.screen);
        assert(self@ =~= with_row(g0, y as int, shifted(j as int)));
        while j > x + k
            invariant
                g0.wf(),
                self.wf(),
                self.cols == g0.cols,
                self.rows == g0.rows,
                cols == g0.cols,
                y < g0.rows,
                x + k <= j <= cols,
                shifted == (|j: int| Seq::new(g0.cols, |c: int| if c >= j { g0.screen[y as int][c - k] } else { g0.screen[y as int][c] })),
                self@ == with_row(g0, y as int, shifted(j as int)),
            decreases j,
        {
            j = j - 1;
            let cell = self.cell_copy(y, j - k);
            self.put_cell(y, j, cell);
            proof {
                assert(self@.screen[y as int] =~= shifted(j as int));
                lemma_row_op_wf(g0, y as int, shifted(j as int));
            }
            assert(self@ =~= with_row(g0, y as int, shifted(j as int)));
        }
        self.clear_span(y, x, x + k);
        assert(self@.screen[y as int] =~= inserted(g0, y as int, x as int, k as int));
        assert(self@ =~= with_row(g0, y as int, inserted(g0, y as int, x as int, k as int)));
    }

    /// Delete `k` cells at column `x` of row `y` (DCH).
    pub fn delete_chars(&mut self, y: usize, x: usize, k: usize)
        requires
            old(self).wf(),
            y < old(self).rows,
            x < old(self).cols,
            k <= old(self).cols - x,
        ensures
            final(self).wf(),
            final(self)@ == with_row(old(self)@, y as int, deleted(old(self)@, y as int, x as int, k as int)),
    {
        let ghost g0 = self@;
        let cols = self.cols;
        let mut j = x;
        let ghost shifted = |j: int| Seq::new(g0.cols, |c: int| if x <= c < j { g0.screen[y as int][c + k] } else { g0.screen[y as int][c] });
        assert(shifted(x as int) =~= g0.screen[y as int]);
        assert(g0.screen.update(y as int, g0.screen[y as int]) =~= g0.screen);
        assert(self@ =~= with_row(g0, y as int, shifted(j as int)));
        while j < cols - k
            invariant
                g0.wf(),
                self.wf(),
                self.cols == g0.cols,
                self.rows == g0.rows,
                cols == g0.cols,
                y < g0.rows,
                x <= j <= cols - k,
                k <= cols - x,
                shifted == (|j: int| Seq::new(g0.cols, |c: int| if x <= c < j { g0.screen[y as int][c + k] } else { g0.screen[y as int][c] })),
                self@ == with_row(g0, y as int, shifted(j as int)),
            decreases cols - j,
        {
            let cell = self.cell_copy(y, j + k);
            self.put_cell(y, j, cell);
            proof {
                assert(self@.screen[y as int] =~= shifted(j + 1));
                lemma_row_op_wf(g0, y as int, shifted(j + 1));
            }
            assert(self@ =~= with_row(g0, y as int, shifted(j + 1)));
            j = j + 1;
        }
        self.clear_span(y, cols - k, cols);
        assert(self@.screen[y as int] =~= deleted(g0, y as int, x as int, k as int));
        assert(self@ =~= with_row(g0, y as int, deleted(g0, y as int, x as int, k as int)));
    }
}


/// Parameters as received from the parser: each parameter with its sub-parameters.
pub open spec fn params_view(p: Seq<Vec<u16>>) -> Seq<Seq<u16>> {
    p.map_values(|v: Vec<u16>| v@)
}

/// The value of parameter `i` for SGR: its first value, 0 when empty or absent.
pub open spec fn sgr_arg(p: Seq<Seq<u16>>, i: int) -> u16 {
    if 0 <= i < p.len() && p[i].len() > 0 { p[i][0] } else { 0 }
}

/// Foreground colour, background colour and attribute bits.
pub type Rendition = (Option<Rgb>, Option<Rgb>, u8);

/// The effect of one SGR code other than the extended colours 38 and 48.
pub open spec fn sgr_code(r: Rendition, code: u16) -> Rendition {
    let a = r.2;
    if code == 0 { (None, None, 0u8) }
    else if code == 1 { (r.0, r.1, a | CellAttrs::BOLD) }
    else if code == 2 { (r.0, r.1, a | CellAttrs::DIM) }
    else if code == 3 { (r.0, r.1, a | CellAttrs::ITALIC) }
    else if code == 4 { (r.0, r.1, a | CellAttrs::UNDERLINE) }
    else if code == 5 || code == 6 { (r.0, r.1, a | CellAttrs::BLINK) }
    else if code == 7 { (r.0, r.1, a | CellAttrs::REVERSE) }
    else if code == 9 { (r.0, r.1, a | CellAttrs::STRIKETHROUGH) }
    else if code == 21 || code == 22 { (r.0, r.1, (a & !CellAttrs::BOLD) & !CellAttrs::DIM) }
    else if code == 23 { (r.0, r.1, a & !CellAttrs::ITALIC) }
    else if code == 24 { (r.0, r.1, a & !CellAttrs::UNDERLINE) }
    else if code == 25 { (r.0, r.1, a & !CellAttrs::BLINK) }
    else if code == 27 { (r.0, r.1, a & !CellAttrs::REVERSE) }
    else if code == 29 { (r.0, r.1, a & !CellAttrs::STRIKETHROUGH) }
    else if code == 39 { (None, r.1, a) }
    else if 30 <= code <= 37 { (Some(ansi_color_spec((code - 30) as u16, false)), r.1, a) }
    else if 40 <= code <= 47 { (r.0, Some(ansi_color_spec((code - 40) as u16, false)), a) }
    else if code == 49 { (r.0, None, a) }
    else if 90 <= code <= 97 { (Some(ansi_color_spec((code - 90) as u16, true)), r.1, a) }
    else if 100 <= code <= 107 { (r.0, Some(ansi_color_spec((code - 100) as u16, true)), a) }
    else { r }
}

/// An extended colour (38 or 48) at parameter `i`: written with sub-parameters
/// (`38:5:n`, `38:2:r:g:b`) or spread over the following parameters (`38;5;n`,
/// `38;2;r;g;b`). Gives the colour, if any, and the index of the next parameter.
pub open spec fn ext_color(p: Seq<Seq<u16>>, i: int) -> (Option<Rgb>, int) {
    let q = p[i];
    if q.len() >= 3 && q[1] == 5 {
        (Some(color_256_spec(q[2] as u8)), i + 1)
    } else if q.len() >= 5 && q[1] == 2 {
        (Some(rgb(q[2] as u8, q[3] as u8, q[4] as u8)), i + 1)
    } else {
        let mode = sgr_arg(p, i + 1);
        if mode == 5 {
            (Some(color_256_spec(sgr_arg(p, i + 2) as u8)), min_nat((i + 3) as nat, p.len()) as int)
        } else if mode == 2 {
            (Some(rgb(sgr_arg(p, i + 2) as u8, sgr_arg(p, i + 3) as u8, sgr_arg(p, i + 4) as u8)), min_nat((i + 5) as nat, p.len()) as int)
        } else {
            (None, min_nat((i + 2) as nat, p.len()) as int)
        }
    }
}

/// The rendition after applying the SGR parameters from index `i` on.
pub open spec fn sgr_from(r: Rendition, p: Seq<Seq<u16>>, i: int) -> Rendition
    decreases p.len() - i,
{
    if i < 0 || i >= p.len() {
        r
    } else {
        let code = sgr_arg(p, i);
        if code == 38 || code == 48 {
            let (color, next) = ext_color(p, i);
            let r2 = match color {
                Some(c) => if code == 38 { (Some(c), r.1, r.2) } else { (r.0, Some(c), r.2) },
                None => r,
            };
            if next > i { sgr_from(r2, p, next) } else { r2 }
        } else {
            sgr_from(sgr_code(r, code), p, i + 1)
        }
    }
}

/// SGR: no parameters reset the rendition; otherwise each code applies in turn.
pub open spec fn sgr_spec(r: Rendition, p: Seq<Seq<u16>>) -> Rendition {
    if p.len() == 0 { (None, None, 0u8) } else { sgr_from(r, p, 0) }
}

pub fn sgr_arg_at(params: &Vec<Vec<u16>>, i: usize) -> (v: u16)
    ensures
        v == sgr_arg(params_view(params@), i as int),
{
    if i < params.len() && params[i].len() > 0 { params[i][0] } else { 0 }
}

fn sgr_code_apply(r: Rendition, code: u16) -> (out: Rendition)
    ensures
        out == sgr_code(r, code),
{
    let (fg, bg, a) = r;
    if code == 0 { (None, None, 0u8) }
    else if code == 1 { (fg, bg, a | CellAttrs::BOLD) }
    else if code == 2 { (fg, bg, a | CellAttrs::DIM) }
    else if code == 3 { (fg, bg, a | CellAttrs::ITALIC) }
    else if code == 4 { (fg, bg, a | CellAttrs::UNDERLINE) }
    else if code == 5 || code == 6 { (fg, bg, a | CellAttrs::BLINK) }
    else if code == 7 { (fg, bg, a | CellAttrs::REVERSE) }
    else if code == 9 { (fg, bg, a | CellAttrs::STRIKETHROUGH) }
    else if code == 21 || code == 22 { (fg, bg, (a & !CellAttrs::BOLD) & !CellAttrs::DIM) }
    else if code == 23 { (fg, bg, a & !CellAttrs::ITALIC) }
    else if code == 24 { (fg, bg, a & !CellAttrs::UNDERLINE) }
    else if code == 25 { (fg, bg, a & !CellAttrs::BLINK) }
    else if code == 27 { (fg, bg, a & !CellAttrs::REVERSE) }
    else if code == 29 { (fg, bg, a & !CellAttrs::STRIKETHROUGH) }
    else if code == 39 { (None, bg, a) }
    else if 30 <= code && code <= 37 { (Some(ansi_color(code - 30, false)), bg, a) }
    else if 40 <= code && code <= 47 { (fg, Some(ansi_color(code - 40, false)), a) }
    else if code == 49 { (fg, None, a) }
    else if 90 <= code && code <= 97 { (Some(ansi_color(code - 90, true)), bg, a) }
    else if 100 <= code && code <= 107 { (fg, Some(ansi_color(code - 100, true)), a) }
    else { (fg, bg, a) }
}

fn ext_color_at(params: &Vec<Vec<u16>>, i: usize) -> (out: (Option<Rgb>, usize))
    requires
        i < params@.len(),
    ensures
        out.0 == ext_color(params_view(params@), i as int).0,
        out.1 as int == ext_color(params_view(params@), i as int).1,
{
    let ghost p = params_view(params@);
    let q = &params[i];
    assert(q@ == p[i as int]);
    let len = params.len();
    if q.len() >= 3 && q[1] == 5 {
        (Some(color_256(q[2] as u8)), i + 1)
    } else if q.len() >= 5 && q[1] == 2 {
        (Some(rgb8(q[2] as u8, q[3] as u8, q[4] as u8)), i + 1)
    } else {
        let mode = sgr_arg_at(params, i + 1);
        if mode == 5 {
            let next = if len - i < 3 { len } else { i + 3 };
            let n = if len - i > 2 { sgr_arg_at(params, i + 2) as u8 } else { 0 };
            (Some(color_256(n)), next)
        } else if mode == 2 {
            let next = if len - i < 5 { len } else { i + 5 };
            let r = if len - i > 2 { sgr_arg_at(params, i + 2) as u8 } else { 0 };
            let g = if len - i > 3 { sgr_arg_at(params, i + 3) as u8 } else { 0 };
            let b = if len - i > 4 { sgr_arg_at(params, i + 4) as u8 } else { 0 };
            (Some(rgb8(r, g, b)), next)
        } else {
            let next = if len - i < 2 { len } else { i + 2 };
            (None, next)
        }
    }
}

/// Apply SGR parameters to a rendition (see [`sgr_spec`]).
pub fn sgr_apply(r: Rendition, params: &Vec<Vec<u16>>) -> (out: Rendition)
    ensures
        out == sgr_spec(r, params_view(params@)),
{
    let ghost p = params_view(params@);
    if params.len() == 0 {
        return (None, None, 0u8);
    }
    let mut cur = r;
    let mut i: usize = 0;
    while i < params.len()
        invariant
            p == params_view(params@),
            i <= params@.len(),
            sgr_from(cur, p, i as int) == sgr_from(r, p, 0),
        decreases params@.len() - i,
    {
        let code = sgr_arg_at(params, i);
        if code == 38 || code == 48 {
            let (color, next) = ext_color_at(params, i);
            let r2 = match color {
                Some(c) => if code == 38 { (Some(c), cur.1, cur.2) } else { (cur.0, Some(c), cur.2) },
                None => cur,
            };
            assert(sgr_from(cur, p, i as int) == sgr_from(r2, p, next as int));
            cur = r2;
            i = next;
        } else {
            let r2 = sgr_code_apply(cur, code);
            assert(sgr_from(cur, p, i as int) == sgr_from(r2, p, i + 1));
            cur = r2;
            i = i + 1;
        }
    }
    cur
}

/// The first value of parameter `i`, or `d` when there is no such parameter.
pub open spec fn param_at(p: Seq<Seq<u16>>, i: int, d: int) -> int {
    if 0 <= i < p.len() { p[i][0] as int } else { d }
}

/// The repeat count of a movement or editing sequence: the first parameter, 0 and
/// absent meaning 1.
pub open spec fn count_of(p: Seq<Seq<u16>>) -> nat {
    let v = param_at(p, 0, 0);
    if v == 0 { 1 } else { v as nat }
}

/// A parameter whose 0 or absence means `d`.
pub open spec fn param_or(p: Seq<Seq<u16>>, i: int, d: int) -> int {
    let v = param_at(p, i, d);
    if v == 0 { d } else { v }
}

/// Cursor movement: up (A), down (B), forward (C), back (D), column (G), position (H, f).
/// Up and down stop at the scroll region when the cursor is inside it.
pub open spec fn cursor_move(g: GridModel, p: Seq<Seq<u16>>, cmd: char) -> GridModel {
    let n = count_of(p);
    let x = g.cursor_x;
    let y = g.cursor_y;
    let last_col = sat_sub(g.cols, 1);
    let last_row = sat_sub(g.rows, 1);
    if cmd == 'A' {
        let top = if y >= g.scroll_top { g.scroll_top } else { 0 };
        let ny = sat_sub(y, n);
        GridModel { cursor_y: if ny >= top { ny } else { top }, wrap_next: false, ..g }
    } else if cmd == 'B' {
        let bottom = if y <= g.scroll_bottom { g.scroll_bottom } else { last_row };
        GridModel { cursor_y: min_nat(y + n, bottom), wrap_next: false, ..g }
    } else if cmd == 'C' {
        GridModel { cursor_x: min_nat(x + n, last_col), wrap_next: false, ..g }
    } else if cmd == 'D' {
        GridModel { cursor_x: sat_sub(x, n), wrap_next: false, ..g }
    } else if cmd == 'G' {
        GridModel { cursor_x: min_nat(sat_sub(param_at(p, 0, 0) as nat, 1), last_col), wrap_next: false, ..g }
    } else if cmd == 'H' || cmd == 'f' {
        let row = param_or(p, 0, 1) as nat;
        let col = param_or(p, 1, 1) as nat;
        GridModel {
            cursor_y: min_nat((row - 1) as nat, last_row),
            cursor_x: min_nat((col - 1) as nat, last_col),
            wrap_next: false,
            ..g
        }
    } else {
        g
    }
}

pub open spec fn is_cursor_cmd(cmd: char) -> bool {
    cmd == 'A' || cmd == 'B' || cmd == 'C' || cmd == 'D' || cmd == 'G' || cmd == 'H' || cmd == 'f'
}

/// Erasing and character editing: erase in line (K), erase in display (J), insert
/// blanks (@), delete characters (P), erase characters (X). Erased cells become blank
/// cells without the current rendition.
pub open spec fn edit(g: GridModel, p: Seq<Seq<u16>>, cmd: char) -> GridModel {
    let mode = param_at(p, 0, 0);
    let n = count_of(p);
    let x = g.cursor_x as int;
    let y = g.cursor_y as int;
    let cols = g.cols as int;
    let rows = g.rows as int;
    if cmd == 'K' {
        if mode == 0 { clear_span(g, y, x, cols) }
        else if mode == 1 { clear_span(g, y, 0, x + 1) }
        else if mode == 2 { clear_span(g, y, 0, cols) }
        else { g }
    } else if cmd == 'J' {
        if mode == 0 { clear_rows(clear_span(g, y, x, cols), y + 1, rows) }
        else if mode == 1 { clear_span(clear_rows(g, 0, y), y, 0, x + 1) }
        else if mode == 2 || mode == 3 { clear_rows(g, 0, rows) }
        else { g }
    } else if cmd == '@' {
        with_row(g, y, inserted(g, y, x, min_nat(n, (cols - x) as nat) as int))
    } else if cmd == 'P' {
        with_row(g, y, deleted(g, y, x, min_nat(n, (cols - x) as nat) as int))
    } else if cmd == 'X' {
        clear_span(g, y, x, min_nat((x + n) as nat, g.cols) as int)
    } else {
        g
    }
}

pub open spec fn is_edit_cmd(cmd: char) -> bool {
    cmd == 'K' || cmd == 'J' || cmd == '@' || cmd == 'P' || cmd == 'X'
}

/// Scrolling: insert lines (L) and delete lines (M) between the cursor row and the
/// bottom of the scroll region, scroll up (S) and down (T), and set the scroll region (r),
/// which also homes the cursor.
pub open spec fn scroll_cmd(g: GridModel, p: Seq<Seq<u16>>, inter: Seq<u8>, cmd: char) -> GridModel {
    let n = count_of(p);
    let y = g.cursor_y;
    let bottom = g.scroll_bottom;
    if cmd == 'L' || cmd == 'M' {
        if y <= bottom {
            let count = min_nat(n, sat_sub(bottom, y) + 1);
            let t = GridModel { scroll_top: y, ..g };
            let s = if cmd == 'L' { t.scroll_down(count) } else { t.scroll_up(count) };
            GridModel { scroll_top: g.scroll_top, ..s }
        } else {
            g
        }
    } else if cmd == 'S' {
        g.scroll_up(n)
    } else if cmd == 'T' {
        g.scroll_down(n)
    } else if cmd == 'r' && inter.len() == 0 {
        let top = param_or(p, 0, 1) as nat;
        let bot = param_or(p, 1, g.rows as int) as nat;
        GridModel {
            scroll_top: min_nat((top - 1) as nat, sat_sub(g.rows, 1)),
            scroll_bottom: min_nat(sat_sub(bot, 1), sat_sub(g.rows, 1)),
            cursor_x: 0,
            cursor_y: 0,
            wrap_next: false,
            ..g
        }
    } else {
        g
    }
}

pub open spec fn is_scroll_cmd(cmd: char) -> bool {
    cmd == 'L' || cmd == 'M' || cmd == 'S' || cmd == 'T' || cmd == 'r'
}

/// A DEC private mode set (`on`) or reset: alternate screen (47, 1047, 1049), mouse
/// reporting (1000, 1002, 1003), SGR mouse encoding (1006), bracketed paste (2004) and
/// cursor visibility (25).
pub open spec fn set_mode(g: GridModel, mode: int, on: bool) -> GridModel {
    if mode == 47 || mode == 1047 || mode == 1049 {
        if on { g.enter_alt_screen() } else { g.leave_alt_screen() }
    } else if mode == 1000 {
        GridModel { mouse_mode: if on { MouseMode::Normal } else { MouseMode::Off }, ..g }
    } else if mode == 1002 {
        GridModel { mouse_mode: if on { MouseMode::Button } else { MouseMode::Off }, ..g }
    } else if mode == 1003 {
        GridModel { mouse_mode: if on { MouseMode::AnyEvent } else { MouseMode::Off }, ..g }
    } else if mode == 1006 {
        GridModel { mouse_sgr: on, ..g }
    } else if mode == 2004 {
        GridModel { bracketed_paste: on, ..g }
    } else if mode == 25 {
        GridModel { cursor_visible: on, ..g }
    } else {
        g
    }
}

/// The cursor position report `ESC [ row ; col R`, one-based.
pub open spec fn position_report(x: nat, y: nat) -> Seq<u8> {
    seq![0x1bu8, 0x5bu8] + decimal(y + 1) + seq![0x3bu8] + decimal(x + 1) + seq![0x52u8]
}

/// Save (s) and restore (u) the cursor, private modes (h, l after `?`) and the device
/// status report (n with a 6), whose answer is queued for the application.
pub open spec fn mode_cmd(g: GridModel, p: Seq<Seq<u16>>, inter: Seq<u8>, cmd: char) -> GridModel {
    if cmd == 's' && inter.len() == 0 {
        GridModel { saved_cursor: Some((g.cursor_x, g.cursor_y)), ..g }
    } else if cmd == 'u' && inter.len() == 0 {
        match g.saved_cursor {
            Some((x, y)) => GridModel { cursor_x: x, cursor_y: y, wrap_next: false, ..g },
            None => g,
        }
    } else if (cmd == 'h' || cmd == 'l') && inter.contains(0x3fu8) {
        set_mode(g, param_at(p, 0, 0), cmd == 'h')
    } else if cmd == 'n' && p.len() > 0 && p[0].contains(6u16) {
        GridModel { output_queue: g.output_queue.push(position_report(g.cursor_x, g.cursor_y)), ..g }
    } else {
        g
    }
}

/// The effect of a control sequence with parameters `p`, intermediate bytes `inter` and
/// final character `cmd`.
pub open spec fn csi_spec(g: GridModel, p: Seq<Seq<u16>>, inter: Seq<u8>, cmd: char) -> GridModel {
    if cmd == 'm' {
        let r = sgr_spec((g.current_fg, g.current_bg, g.current_attrs), p);
        GridModel { current_fg: r.0, current_bg: r.1, current_attrs: r.2, ..g }
    } else if is_cursor_cmd(cmd) {
        cursor_move(g, p, cmd)
    } else if is_edit_cmd(cmd) {
        edit(g, p, cmd)
    } else if is_scroll_cmd(cmd) {
        scroll_cmd(g, p, inter, cmd)
    } else {
        mode_cmd(g, p, inter, cmd)
    }
}

/// The first value of parameter `i`, or `d`.
pub fn param_at_exec(params: &Vec<Vec<u16>>, i: usize, d: usize) -> (v: usize)
    requires
        forall|k: int| 0 <= k < params@.len() ==> #[trigger] params@[k]@.len() >= 1,
        d <= u16::MAX,
    ensures
        v as int == param_at(params_view(params@), i as int, d as int),
        v <= u16::MAX,
{
    if i < params.len() { params[i][0] as usize } else { d }
}

pub fn count_exec(params: &Vec<Vec<u16>>) -> (n: usize)
    requires
        forall|k: int| 0 <= k < params@.len() ==> #[trigger] params@[k]@.len() >= 1,
    ensures
        n as nat == count_of(params_view(params@)),
        1 <= n <= u16::MAX,
{
    let v = param_at_exec(params, 0, 0);
    if v == 0 { 1 } else { v }
}

pub fn param_or_exec(params: &Vec<Vec<u16>>, i: usize, d: usize) -> (v: usize)
    requires
        forall|k: int| 0 <= k < params@.len() ==> #[trigger] params@[k]@.len() >= 1,
    ensures
        v as int == param_or(params_view(params@), i as int, d as int),
{
    let v = if i < params.len() { params[i][0] as usize } else { d };
    if v == 0 { d } else { v }
}

pub open spec fn params_ok(p: Seq<Vec<u16>>) -> bool {
    forall|k: int| 0 <= k < p.len() ==> #[trigger] p[k]@.len() >= 1
}

impl Grid {
    /// Cursor movement sequences (see [`cursor_move`]).
    pub fn csi_cursor(&mut self, params: &Vec<Vec<u16>>, cmd: char)
        requires
            old(self).wf(),
            old(self)@.executor_ok(),
            params_ok(params@),
            is_cursor_cmd(cmd),
        ensures
            final(self).wf(),
            final(self)@.executor_ok(),
            final(self)@ == cursor_move(old(self)@, params_view(params@), cmd),
    {
        let ghost g0 = self@;
        let ghost target = cursor_move(g0, params_view(params@), cmd);
        let n = count_exec(params);
        let x = self.cursor_x;
        let y = self.cursor_y;
        let last_col = self.cols - 1;
        let last_row = self.rows - 1;
        let mut nx = x;
        let mut ny = y;
        if cmd == 'A' {
            let top = if y >= self.scroll_top { self.scroll_top } else { 0 };
            let up = if y >= n { y - n } else { 0 };
            ny = if up >= top { up } else { top };
        } else if cmd == 'B' {
            let bottom = if y <= self.scroll_bottom { self.scroll_bottom } else { last_row };
            ny = if n >= bottom - y { bottom } else { y + n };
        } else if cmd == 'C' {
            nx = if n >= last_col - x { last_col } else { x + n };
        } else if cmd == 'D' {
            nx = if x >= n { x - n } else { 0 };
        } else if cmd == 'G' {
            let v = param_at_exec(params, 0, 0);
            let col = if v == 0 { 0 } else { v - 1 };
            nx = if col <= last_col { col } else { last_col };
        } else {
            let row = param_or_exec(params, 0, 1);
            let col = param_or_exec(params, 1, 1);
            ny = if row - 1 <= last_row { row - 1 } else { last_row };
            nx = if col - 1 <= last_col { col - 1 } else { last_col };
        }
        assert(target == GridModel { cursor_x: nx as nat, cursor_y: ny as nat, wrap_next: false, ..g0 });
        self.cursor_x = nx;
        self.cursor_y = ny;
        self.wrap_next = false;
        assert(self@ =~= cursor_move(g0, params_view(params@), cmd));
    }

    /// Erasing and character editing sequences (see [`edit`]).
    pub fn csi_edit(&mut self, params: &Vec<Vec<u16>>, cmd: char)
        requires
            old(self).wf(),
            old(self)@.executor_ok(),
            params_ok(params@),
            is_edit_cmd(cmd),
        ensures
            final(self).wf(),
            final(self)@.executor_ok(),
            final(self)@ == edit(old(self)@, params_view(params@), cmd),
    {
        let ghost g0 = self@;
        let mode = param_at_exec(params, 0, 0);
        let n = count_exec(params);
        let x = self.cursor_x;
        let y = self.cursor_y;
        let cols = self.cols;
        let rows = self.rows;
        if cmd == 'K' {
            if mode == 0 {
                self.clear_span(y, x, cols);
            } else if mode == 1 {
                self.clear_span(y, 0, x + 1);
            } else if mode == 2 {
                self.clear_span(y, 0, cols);
            }
        } else if cmd == 'J' {
            if mode == 0 {
                self.clear_span(y, x, cols);
                self.clear_rows(y + 1, rows);
            } else if mode == 1 {
                self.clear_rows(0, y);
                self.clear_span(y, 0, x + 1);
            } else if mode == 2 || mode == 3 {
                self.clear_rows(0, rows);
            }
        } else if cmd == '@' {
            let k = if n <= cols - x { n } else { cols - x };
            self.insert_blanks(y, x, k);
        } else if cmd == 'P' {
            let k = if n <= cols - x { n } else { cols - x };
            self.delete_chars(y, x, k);
        } else {
            let end = if n <= cols - x { x + n } else { cols };
            self.clear_span(y, x, end);
        }
        assert(self@ == edit(g0, params_view(params@), cmd));
    }
}

/// Whether a byte string contains `b`.
pub fn bytes_contain(s: &[u8], b: u8) -> (r: bool)
    ensures
        r == s@.contains(b),
{
    let mut i: usize = 0;
    while i < s.len()
        invariant
            i <= s@.len(),
            forall|k: int| 0 <= k < i ==> s@[k] != b,
        decreases s@.len() - i,
    {
        if s[i] == b {
            assert(s@[i as int] == b);
            return true;
        }
        i = i + 1;
    }
    false
}

/// Whether a parameter has the value `v` among its values.
pub fn values_contain(s: &Vec<u16>, v: u16) -> (r: bool)
    ensures
        r == s@.contains(v),
{
    let mut i: usize = 0;
    while i < s.len()
        invariant
            i <= s@.len(),
            forall|k: int| 0 <= k < i ==> s@[k] != v,
        decreases s@.len() - i,
    {
        if s[i] == v {
            assert(s@[i as int] == v);
            return true;
        }
        i = i + 1;
    }
    false
}

impl Grid {
    /// Insert (`down`) or delete lines at the cursor row: the part of the scroll region
    /// from the cursor row down scrolls by at most its height.
    #[verifier::spinoff_prover]
    #[verifier::rlimit(40)]
    pub fn shift_lines(&mut self, n: usize, down: bool)
        requires
            old(self).wf(),
            old(self)@.executor_ok(),
            old(self)@.cursor_y <= old(self)@.scroll_bottom,
        ensures
            final(self).wf(),
            final(self)@.executor_ok(),
            final(self)@ == ({
                let g = old(self)@;
                let count = min_nat(n as nat, sat_sub(g.scroll_bottom, g.cursor_y) + 1);
                let t = GridModel { scroll_top: g.cursor_y, ..g };
                let s = if down { t.scroll_down(count) } else { t.scroll_up(count) };
                GridModel { scroll_top: g.scroll_top, ..s }
            }),
    {
        let ghost g0 = self@;
        let y = self.cursor_y;
        let bottom = self.scroll_bottom;
        let count = if n <= bottom - y + 1 { n } else { bottom - y + 1 };
        let old_top = self.scroll_top;
        self.scroll_top = y;
        let ghost t = self@;
        assert(t =~= GridModel { scroll_top: y as nat, ..g0 });
        if down {
            self.scroll_down(count);
            proof {
                lemma_scroll_down_n_frame(t, t.scroll_count(count as nat));
                lemma_scroll_down_n_wf(t, t.scroll_count(count as nat));
            }
        } else {
            self.scroll_up(count);
            proof {
                lemma_scroll_up_n_frame(t, t.scroll_count(count as nat));
                lemma_scroll_up_n_wf(t, t.scroll_count(count as nat));
            }
        }
        let ghost s2 = self@;
        self.scroll_top = old_top;
        assert(self@ =~= GridModel { scroll_top: g0.scroll_top, ..s2 });
    }

    /// Set the scroll region from one-based top and bottom rows, and home the cursor.
    pub fn set_region(&mut self, params: &Vec<Vec<u16>>)
        requires
            old(self).wf(),
            old(self)@.executor_ok(),
            params_ok(params@),
        ensures
            final(self).wf(),
            final(self)@.executor_ok(),
            final(self)@ == scroll_cmd(old(self)@, params_view(params@), Seq::empty(), 'r'),
    {
        let ghost g0 = self@;
        let rows = self.rows;
        let top = param_or_exec(params, 0, 1);
        let bot = param_or_exec(params, 1, rows);
        self.scroll_top = if top - 1 <= rows - 1 { top - 1 } else { rows - 1 };
        self.scroll_bottom = if bot - 1 <= rows - 1 { bot - 1 } else { rows - 1 };
        self.cursor_x = 0;
        self.cursor_y = 0;
        self.wrap_next = false;
        assert(self@ =~= scroll_cmd(g0, params_view(params@), Seq::empty(), 'r'));
    }

    /// Scrolling sequences (see [`scroll_cmd`]).
    pub fn csi_scroll(&mut self, params: &Vec<Vec<u16>>, intermediates: &[u8], cmd: char)
        requires
            old(self).wf(),
            old(self)@.executor_ok(),
            params_ok(params@),
            is_scroll_cmd(cmd),
            (cmd == 'S' || cmd == 'T') ==> old(self)@.region_ok(),
        ensures
            final(self).wf(),
            final(self)@.executor_ok(),
            final(self)@ == scroll_cmd(old(self)@, params_view(params@), intermediates@, cmd),
    {
        let ghost g0 = self@;
        let n = count_exec(params);
        if cmd == 'L' || cmd == 'M' {
            if self.cursor_y <= self.scroll_bottom {
                self.shift_lines(n, cmd == 'L');
            }
        } else if cmd == 'S' {
            self.scroll_up(n);
            proof {
                lemma_scroll_up_n_frame(g0, g0.scroll_count(n as nat));
            }
        } else if cmd == 'T' {
            self.scroll_down(n);
            proof {
                lemma_scroll_down_n_frame(g0, g0.scroll_count(n as nat));
            }
        } else if intermediates.len() == 0 {
            self.set_region(params);
            assert(intermediates@ =~= Seq::<u8>::empty());
        }
    }

    /// A DEC private mode (see [`set_mode`]).
    pub fn set_private_mode(&mut self, mode: usize, on: bool)
        requires
            old(self).wf(),
            old(self)@.executor_ok(),
        ensures
            final(self).wf(),
            final(self)@.executor_ok(),
            final(self)@ == set_mode(old(self)@, mode as int, on),
    {
        let ghost g0 = self@;
        if mode == 47 || mode == 1047 || mode == 1049 {
            if on {
                self.enter_alt_screen();
            } else {
                self.leave_alt_screen();
            }
        } else if mode == 1000 {
            self.mouse_mode = if on { MouseMode::Normal } else { MouseMode::Off };
        } else if mode == 1002 {
            self.mouse_mode = if on { MouseMode::Button } else { MouseMode::Off };
        } else if mode == 1003 {
            self.mouse_mode = if on { MouseMode::AnyEvent } else { MouseMode::Off };
        } else if mode == 1006 {
            self.mouse_sgr = on;
        } else if mode == 2004 {
            self.bracketed_paste = on;
        } else if mode == 25 {
            self.cursor_visible = on;
        }
        assert(self@ =~= set_mode(g0, mode as int, on));
    }

    /// Save and restore the cursor, private modes and status reports (see [`mode_cmd`]).
    pub fn csi_mode(&mut self, params: &Vec<Vec<u16>>, intermediates: &[u8], cmd: char)
        requires
            old(self).wf(),
            old(self)@.executor_ok(),
            params_ok(params@),
        ensures
            final(self).wf(),
            final(self)@.executor_ok(),
            final(self)@ == mode_cmd(old(self)@, params_view(params@), intermediates@, cmd),
    {
        let ghost g0 = self@;
        let ghost p = params_view(params@);
        if cmd == 's' && intermediates.len() == 0 {
            self.saved_cursor = Some((self.cursor_x, self.cursor_y));
            assert(self@ =~= mode_cmd(g0, p, intermediates@, cmd));
        } else if cmd == 'u' && intermediates.len() == 0 {
            if let Some((x, y)) = self.saved_cursor {
                self.cursor_x = x;
                self.cursor_y = y;
                self.wrap_next = false;
            }
            assert(self@ =~= mode_cmd(g0, p, intermediates@, cmd));
        } else if (cmd == 'h' || cmd == 'l') && bytes_contain(intermediates, 0x3f) {
            let mode = param_at_exec(params, 0, 0);
            self.set_private_mode(mode, cmd == 'h');
        } else if cmd == 'n' && params.len() > 0 && values_contain(&params[0], 6) {
            assert(params@[0]@ == p[0]);
            let mut report: Vec<u8> = Vec::new();
            report.push(0x1b);
            report.push(0x5b);
            push_decimal(&mut report, self.cursor_y + 1);
            report.push(0x3b);
            push_decimal(&mut report, self.cursor_x + 1);
            report.push(0x52);
            assert(report@ =~= position_report(g0.cursor_x, g0.cursor_y));
            let ghost q = self.output_queue@;
            self.output_queue.push(report);
            assert(self.output_queue@.map_values(|b: Vec<u8>| b@) =~= q.map_values(|b: Vec<u8>| b@).push(position_report(g0.cursor_x, g0.cursor_y)));
            assert(self@ =~= mode_cmd(g0, p, intermediates@, cmd));
        }
    }

    /// Select graphic rendition (see [`sgr_spec`]).
    pub fn csi_sgr(&mut self, params: &Vec<Vec<u16>>)
        requires
            old(self).wf(),
            old(self)@.executor_ok(),
        ensures
            final(self).wf(),
            final(self)@.executor_ok(),
            final(self)@ == csi_spec(old(self)@, params_view(params@), Seq::empty(), 'm'),
    {
        let ghost g0 = self@;
        let r = sgr_apply((self.current_fg, self.current_bg, self.current_attrs.bits), params);
        self.current_fg = r.0;
        self.current_bg = r.1;
        self.current_attrs = CellAttrs { bits: r.2 };
        assert(self@ =~= csi_spec(g0, params_view(params@), Seq::empty(), 'm'));
    }
}

impl<'a> AnsiExecutor<'a> {
    /// Execute a control sequence (see [`csi_spec`]). Each parameter holds its value and
    /// sub-parameters, as the parser groups them.
    pub fn csi_dispatch(&mut self, params: &Vec<Vec<u16>>, intermediates: &[u8], command: char)
        requires
            old(self).grid.wf(),
            old(self).grid@.executor_ok(),
            params_ok(params@),
            (command == 'S' || command == 'T') ==> old(self).grid@.region_ok(),
        ensures
            final(self).grid.wf(),
            final(self).grid@.executor_ok(),
            final(self).grid@ == csi_spec(old(self).grid@, params_view(params@), intermediates@, command),
            final(self).bell_pending == old(self).bell_pending,
    {
        if command == 'm' {
            self.grid.csi_sgr(params);
        } else if is_cursor_char(command) {
            self.grid.csi_cursor(params, command);
        } else if is_edit_char(command) {
            self.grid.csi_edit(params, command);
        } else if is_scroll_char(command) {
            self.grid.csi_scroll(params, intermediates, command);
        } else {
            self.grid.csi_mode(params, intermediates, command);
        }
    }
}

fn is_cursor_char(c: char) -> (r: bool)
    ensures
        r == is_cursor_cmd(c),
{
    c == 'A' || c == 'B' || c == 'C' || c == 'D' || c == 'G' || c == 'H' || c == 'f'
}

fn is_edit_char(c: char) -> (r: bool)
    ensures
        r == is_edit_cmd(c),
{
    c == 'K' || c == 'J' || c == '@' || c == 'P' || c == 'X'
}

fn is_scroll_char(c: char) -> (r: bool)
    ensures
        r == is_scroll_cmd(c),
{
    c == 'L' || c == 'M' || c == 'S' || c == 'T' || c == 'r'
}

/// A private mode reset that leaves the alternate screen.
pub open spec fn leaves_alt(p: Seq<Seq<u16>>, inter: Seq<u8>, cmd: char) -> bool {
    let m = param_at(p, 0, 0);
    cmd == 'l' && inter.contains(0x3fu8) && (m == 47 || m == 1047 || m == 1049)
}

/// While on the alternate screen, every operation of the executor but a reset of the
/// alternate screen mode keeps what entering it put aside, and the size: printing,
/// control codes, escape sequences, operating system commands, and every other control
/// sequence (entering the alternate screen again does nothing).
pub proof fn law_executor_keeps_saved(g: GridModel, c: char, byte: u8, bell: bool, p: Seq<Seq<u16>>, inter: Seq<u8>, cmd: char, op: Seq<Seq<u8>>)
    requires
        g.alt_cells is Some,
    ensures
        keeps_saved(g, crate::parser::print_spec(g, c)),
        keeps_saved(g, crate::parser::execute_spec(g, byte, bell).0),
        keeps_saved(g, crate::parser::esc_spec(g, byte)),
        keeps_saved(g, crate::osc::osc_spec(g, op)),
        !leaves_alt(p, inter, cmd) ==> keeps_saved(g, csi_spec(g, p, inter, cmd)),
{
    lemma_print_keeps_saved(g, c);
    lemma_controls_keep_saved(g, byte, bell);
    lemma_osc_keeps_saved(g, op);
    if !leaves_alt(p, inter, cmd) {
        lemma_csi_keeps_saved(g, p, inter, cmd);
    }
}

proof fn lemma_print_keeps_saved(g: GridModel, c: char)
    ensures
        keeps_saved(g, crate::parser::print_spec(g, c)),
{
    lemma_scrolls_keep_saved();
}

proof fn lemma_controls_keep_saved(g: GridModel, byte: u8, bell: bool)
    ensures
        keeps_saved(g, crate::parser::execute_spec(g, byte, bell).0),
        keeps_saved(g, crate::parser::esc_spec(g, byte)),
{
    lemma_scrolls_keep_saved();
}

proof fn lemma_osc_keeps_saved(g: GridModel, op: Seq<Seq<u8>>)
    ensures
        keeps_saved(g, crate::osc::osc_spec(g, op)),
{
}

proof fn lemma_csi_keeps_saved(g: GridModel, p: Seq<Seq<u16>>, inter: Seq<u8>, cmd: char)
    requires
        g.alt_cells is Some,
        !leaves_alt(p, inter, cmd),
    ensures
        keeps_saved(g, csi_spec(g, p, inter, cmd)),
{
    if cmd == 'm' {
    } else if is_cursor_cmd(cmd) {
        assert(keeps_saved(g, cursor_move(g, p, cmd)));
    } else if is_edit_cmd(cmd) {
        lemma_edit_keeps_saved(g, p, cmd);
    } else if is_scroll_cmd(cmd) {
        lemma_scrolls_keep_saved();
        assert(keeps_saved(g, scroll_cmd(g, p, inter, cmd)));
    } else {
        assert(keeps_saved(g, mode_cmd(g, p, inter, cmd)));
    }
}

proof fn lemma_edit_keeps_saved(g: GridModel, p: Seq<Seq<u16>>, cmd: char)
    ensures
        keeps_saved(g, edit(g, p, cmd)),
{
}


/// Erase in display (`ESC [ J`): with mode 0 (or none) every cell from the cursor to the
/// end of the screen becomes blank, on the cursor row from the cursor on and on every row
/// below, and the cells before the cursor are kept; with mode 1 the cells from the start
/// of the screen up to and including the cursor become blank and the rest is kept; with
/// modes 2 and 3 the whole screen is blank. The cursor does not move.
pub proof fn law_erase_in_display(g: GridModel, p: Seq<Seq<u16>>, inter: Seq<u8>)
    requires
        g.wf(),
    ensures
        ({
            let h = csi_spec(g, p, inter, 'J');
            let x = g.cursor_x as int;
            let y = g.cursor_y as int;
            &&& h.cursor_x == g.cursor_x && h.cursor_y == g.cursor_y
            &&& h.screen.len() == g.rows
            &&& (p.len() == 0 || p[0][0] == 0) ==> forall|r: int, c: int| 0 <= r < g.rows && 0 <= c < g.cols ==>
                    #[trigger] h.screen[r][c] == (if r > y || (r == y && c >= x) { blank() } else { g.screen[r][c] })
            &&& (p.len() > 0 && p[0][0] == 1) ==> forall|r: int, c: int| 0 <= r < g.rows && 0 <= c < g.cols ==>
                    #[trigger] h.screen[r][c] == (if r < y || (r == y && c <= x) { blank() } else { g.screen[r][c] })
            &&& (p.len() > 0 && (p[0][0] == 2 || p[0][0] == 3)) ==> forall|r: int, c: int| 0 <= r < g.rows && 0 <= c < g.cols ==>
                    #[trigger] h.screen[r][c] == blank()
        }),
{
}

/// Erase in line (`ESC [ K`): only the cursor row changes; with mode 0 (or none) its
/// cells from the cursor on become blank, with mode 1 those up to and including the
/// cursor, with mode 2 all of them.
pub proof fn law_erase_in_line(g: GridModel, p: Seq<Seq<u16>>, inter: Seq<u8>)
    requires
        g.wf(),
    ensures
        ({
            let h = csi_spec(g, p, inter, 'K');
            let x = g.cursor_x as int;
            let y = g.cursor_y as int;
            &&& h.cursor_x == g.cursor_x && h.cursor_y == g.cursor_y
            &&& forall|r: int| 0 <= r < g.rows && r != y ==> #[trigger] h.screen[r] == g.screen[r]
            &&& (p.len() == 0 || p[0][0] == 0) ==> forall|c: int| 0 <= c < g.cols ==>
                    #[trigger] h.screen[y][c] == (if c >= x { blank() } else { g.screen[y][c] })
            &&& (p.len() > 0 && p[0][0] == 1) ==> forall|c: int| 0 <= c < g.cols ==>
                    #[trigger] h.screen[y][c] == (if c <= x { blank() } else { g.screen[y][c] })
            &&& (p.len() > 0 && p[0][0] == 2) ==> forall|c: int| 0 <= c < g.cols ==> #[trigger] h.screen[y][c] == blank()
        }),
{
}

} // verus!
